//! Static checks on a rule: its law is a known one, its article exists, its regular expressions
//! compile, its conditions do not contradict each other, and its industry is a known one.

use crate::article::normalize_article;
use crate::escape::normalize_regex;
use crate::number::decimal;
use crate::outside::{compile_regex, quote};
use crate::schema::{Pattern, PatternType, Rule};
use crate::text::{join, listed, same_text};
use vstd::prelude::*;

verus! {

/// The laws that a rule may rest on, each with the number of its last article.
pub const KNOWN_LAWS: [(&'static str, u32); 10] = [
    ("中华人民共和国招标投标法", 68),
    ("中华人民共和国招标投标法实施条例", 87),
    ("中华人民共和国政府采购法", 88),
    ("中华人民共和国政府采购法实施条例", 81),
    ("政府采购货物和服务招标投标管理办法", 76),
    ("建设工程安全生产管理条例", 70),
    ("危险性较大的分部分项工程安全管理规定", 45),
    ("中华人民共和国民法典", 1260),
    ("中华人民共和国建筑法", 85),
    ("中华人民共和国合同法", 428),
];

/// The industries that a rule may belong to.
pub const INDUSTRIES: [&'static str; 4] = ["建筑工程", "政府采购", "IT", "通用"];

/// One thing that is wrong with a rule.
#[derive(Debug, Clone)]
pub struct ValidationIssue {
    pub rule_id: String,
    pub field: &'static str,
    pub message: String,
}

/// The model of an issue.
#[verifier::ext_equal]
pub struct IssueView {
    pub rule_id: Seq<char>,
    pub field: Seq<char>,
    pub message: Seq<char>,
}

impl View for ValidationIssue {
    type V = IssueView;

    open spec fn view(&self) -> IssueView {
        IssueView { rule_id: self.rule_id@, field: self.field@, message: self.message@ }
    }
}

/// The models of a list of issues.
pub open spec fn issue_views(list: Seq<ValidationIssue>) -> Seq<IssueView> {
    list.map_values(|i: ValidationIssue| i@)
}

/// What the checks on some rules came to.
#[derive(Debug, Clone)]
pub struct ValidationReport {
    pub total: usize,
    pub passed: usize,
    pub issues: Vec<ValidationIssue>,
}

impl Default for ValidationReport {
    /// The report on no rules.
    fn default() -> (report: ValidationReport)
        ensures
            report.total == 0,
            report.passed == 0,
            report.issues@ == Seq::<ValidationIssue>::empty(),
    {
        ValidationReport { total: 0, passed: 0, issues: Vec::new() }
    }
}

impl ValidationReport {
    /// Whether nothing is wrong.
    pub fn is_pass(&self) -> (pass: bool)
        ensures
            pass == (self.issues@.len() == 0),
    {
        self.issues.len() == 0
    }
}

// ── What is wrong with a rule ──

/// The number of the last article of a law, by the first entry of a list that names it.
pub open spec fn last_article_in(list: Seq<(&'static str, u32)>, law: Seq<char>) -> Option<u32>
    decreases list.len(),
{
    if list.len() == 0 {
        None
    } else if list[0].0@ == law {
        Some(list[0].1)
    } else {
        last_article_in(list.drop_first(), law)
    }
}

/// The number of the last article of a known law.
pub open spec fn last_article(law: Seq<char>) -> Option<u32> {
    last_article_in(KNOWN_LAWS@, law)
}

/// A list of texts in quotation marks, as a message shows it.
pub open spec fn shown_list(list: Seq<Seq<char>>) -> Seq<char> {
    "["@ + crate::text::joined(
        list.map_values(|t: Seq<char>| crate::outside::quoted_text(t)),
        ", "@,
    ) + "]"@
}

/// The texts of the first list that stand in the second one too.
pub open spec fn overlap(a: Seq<Seq<char>>, b: Seq<Seq<char>>) -> Seq<Seq<char>> {
    a.filter(|t: Seq<char>| b.contains(t))
}

/// The names of the industries.
pub open spec fn industry_names() -> Seq<Seq<char>> {
    INDUSTRIES@.map_values(|s: &'static str| s@)
}

/// An issue with a field of a rule.
pub open spec fn issue(rule: Rule, field: Seq<char>, message: Seq<char>) -> IssueView {
    IssueView { rule_id: rule.id@, field, message }
}

/// The law is not a known one.
pub open spec fn law_issues(rule: Rule) -> Seq<IssueView> {
    if last_article(rule.source.law@) is None {
        seq![
            issue(
                rule,
                "source.law"@,
                "法条名称不在本地法规清单内: '"@ + rule.source.law@ + "'（请登记到 KNOWN_LAWS）"@,
            ),
        ]
    } else {
        Seq::empty()
    }
}

/// The article has no number, or one that its law does not have.
pub open spec fn article_issues(rule: Rule) -> Seq<IssueView> {
    match (crate::article::article_number(rule.source.article@), last_article(rule.source.law@)) {
        (Some(n), Some(max)) => if n > max {
            seq![
                issue(
                    rule,
                    "source.article"@,
                    "条款序号 "@ + crate::number::decimal_text(n) + " 超出《"@ + rule.source.law@
                        + "》上限（"@ + crate::number::decimal_text(max as nat) + " 条）"@,
                ),
            ]
        } else {
            Seq::empty()
        },
        (Some(_), None) => Seq::empty(),
        (None, _) => seq![
            issue(
                rule,
                "source.article"@,
                "条款编号格式不合法: '"@ + rule.source.article@
                    + "'（支持 '第十八条' / '第18条'）"@,
            ),
        ],
    }
}

/// The single text of the value of a pattern.
pub open spec fn single_value(p: Pattern) -> Option<Seq<char>> {
    match p.value {
        Some(v) => v.single(),
        None => None,
    }
}

/// The message with which the regular expression of a pattern is refused, if it is one.
pub open spec fn refusal_of(p: Pattern) -> Option<Seq<char>> {
    match single_value(p) {
        Some(value) => if p.ptype == PatternType::Regex {
            crate::outside::refusal(crate::escape::normalized(value))
        } else {
            None
        },
        None => None,
    }
}

/// The messages with which the regular expressions of a rule are refused, one place for each
/// pattern.
pub open spec fn refusals(rule: Rule) -> Seq<Option<Seq<char>>> {
    rule.patterns@.map_values(|p: Pattern| refusal_of(p))
}

/// The pattern at place `i` is a regular expression without a text, or one that is refused.
pub open spec fn pattern_issues(rule: Rule, i: int, refused: Option<Seq<char>>) -> Seq<IssueView> {
    let p = rule.patterns@[i];
    if p.ptype != PatternType::Regex {
        Seq::empty()
    } else {
        match single_value(p) {
            Some(value) => match refused {
                Some(reason) => seq![
                    issue(
                        rule,
                        "patterns.regex"@,
                        "第 "@ + crate::number::decimal_text((i + 1) as nat)
                            + " 个 regex 编译失败: "@ + reason + "（pattern = "@ + value + "）"@,
                    ),
                ],
                None => Seq::empty(),
            },
            None => seq![issue(rule, "patterns.regex"@, "regex pattern 缺少 value"@)],
        }
    }
}

/// The issues with the first `n` patterns, given which regular expressions are refused.
pub open spec fn regex_issues(rule: Rule, refused: Seq<Option<Seq<char>>>, n: int) -> Seq<IssueView>
    decreases n,
{
    if n <= 0 {
        Seq::empty()
    } else {
        regex_issues(rule, refused, n - 1) + pattern_issues(rule, n - 1, refused[n - 1])
    }
}

/// The words of the chapters that trigger a rule.
pub open spec fn trigger_words(rule: Rule) -> Option<Vec<String>> {
    match rule.conditions.trigger {
        Some(trigger) => trigger.chapter_keywords,
        None => None,
    }
}

/// The words of the clauses that keep a rule from applying.
pub open spec fn exclude_words(rule: Rule) -> Option<Vec<String>> {
    match rule.conditions.exclude {
        Some(exclude) => exclude.clause_keywords,
        None => None,
    }
}

/// The project types that keep a rule from applying.
pub open spec fn exclude_types(rule: Rule) -> Option<Vec<String>> {
    match rule.conditions.exclude {
        Some(exclude) => exclude.project_types,
        None => None,
    }
}

/// Two lists of the conditions, one of what is wanted and one of what is excluded, overlap.
pub open spec fn overlap_issues(
    rule: Rule,
    wanted: Option<Vec<String>>,
    excluded: Option<Vec<String>>,
    message: Seq<char>,
) -> Seq<IssueView> {
    match (wanted, excluded) {
        (Some(a), Some(b)) => {
            let both = overlap(crate::text::texts(a@), crate::text::texts(b@));
            if both.len() > 0 {
                seq![issue(rule, "conditions"@, message + shown_list(both))]
            } else {
                Seq::empty()
            }
        },
        _ => Seq::empty(),
    }
}

/// A condition both triggers and excludes.
pub open spec fn condition_issues(rule: Rule) -> Seq<IssueView> {
    overlap_issues(
        rule,
        trigger_words(rule),
        exclude_words(rule),
        "trigger.chapter_keywords 与 exclude.clause_keywords 重叠: "@,
    ) + overlap_issues(
        rule,
        rule.conditions.project_types,
        exclude_types(rule),
        "project_types 与 exclude.project_types 重叠: "@,
    )
}

/// The industry is not a known one.
pub open spec fn industry_issues(rule: Rule) -> Seq<IssueView> {
    if industry_names().contains(rule.industry@) {
        Seq::empty()
    } else {
        seq![
            issue(
                rule,
                "industry"@,
                "industry '"@ + rule.industry@ + "' 不在分类体系内 "@ + shown_list(
                    industry_names(),
                ),
            ),
        ]
    }
}

/// Everything that is wrong with a rule, given which of its regular expressions are refused.
pub open spec fn issues_given(rule: Rule, refused: Seq<Option<Seq<char>>>) -> Seq<IssueView> {
    law_issues(rule) + article_issues(rule) + regex_issues(
        rule,
        refused,
        rule.patterns@.len() as int,
    ) + condition_issues(rule) + industry_issues(rule)
}

/// Everything that is wrong with a rule.
pub open spec fn issues_of(rule: Rule) -> Seq<IssueView> {
    issues_given(rule, refusals(rule))
}

/// Everything that is wrong with some rules, rule by rule.
pub open spec fn all_issues(rules: Seq<Rule>) -> Seq<IssueView>
    decreases rules.len(),
{
    if rules.len() == 0 {
        Seq::empty()
    } else {
        all_issues(rules.drop_last()) + issues_of(rules.last())
    }
}

/// Whether nothing is wrong with a rule.
pub open spec fn passes(rule: Rule) -> bool {
    issues_of(rule).len() == 0
}

/// The rules with which nothing is wrong.
pub open spec fn passing_rules(rules: Seq<Rule>) -> Seq<Rule> {
    rules.filter(|r: Rule| passes(r))
}

/// Whether the article of a rule has no number of more than 32 bits.
pub open spec fn has_small_article(rule: Rule) -> bool {
    crate::article::article_is_small(rule.source.article@)
}

// ── The checks ──

/// An issue with a field of a rule.
fn make_issue(rule: &Rule, field: &'static str, message: String) -> (made: ValidationIssue)
    ensures
        made@ == issue(*rule, field@, message@),
{
    ValidationIssue { rule_id: rule.id.clone(), field, message }
}

/// The number of the last article of a known law.
fn find_last_article(law: &str) -> (max: Option<u32>)
    ensures
        max == last_article(law@),
{
    let laws = KNOWN_LAWS;
    let ghost all = KNOWN_LAWS@;
    let mut i: usize = 0;
    assert(all.skip(0) == all);
    while i < laws.len()
        invariant
            i <= laws@.len(),
            all == KNOWN_LAWS@,
            laws@ == all,
            last_article_in(all, law@) == last_article_in(all.skip(i as int), law@),
        decreases laws.len() - i,
    {
        assert(all.skip(i as int)[0] == all[i as int]);
        assert(all.skip(i as int).drop_first() == all.skip(i + 1));
        let entry = laws[i];
        if same_text(entry.0, law) {
            return Some(entry.1);
        }
        i = i + 1;
    }
    None
}

/// A list of texts in quotation marks, as a message shows it.
fn show_list(list: &Vec<String>) -> (shown: String)
    ensures
        shown@ == shown_list(crate::text::texts(list@)),
{
    let ghost all = crate::text::texts(list@);
    let ghost expected = all.map_values(|t: Seq<char>| crate::outside::quoted_text(t));
    let mut quoted: Vec<String> = Vec::new();
    let mut i: usize = 0;
    while i < list.len()
        invariant
            i <= list.len(),
            all == crate::text::texts(list@),
            expected == all.map_values(|t: Seq<char>| crate::outside::quoted_text(t)),
            quoted@.len() == i,
            forall|k: int| 0 <= k < i ==> (#[trigger] quoted@[k])@ == expected[k],
        decreases list.len() - i,
    {
        let q = quote(list[i].as_str());
        quoted.push(q);
        i = i + 1;
    }
    assert(crate::text::texts(quoted@) == expected);
    let mut shown = "[".to_owned();
    let inner = join(&quoted, ", ");
    shown.append(inner.as_str());
    shown.append("]");
    shown
}

/// The texts of the first list that stand in the second one too.
fn find_overlap(a: &Vec<String>, b: &Vec<String>) -> (both: Vec<String>)
    ensures
        crate::text::texts(both@) == overlap(crate::text::texts(a@), crate::text::texts(b@)),
{
    let ghost all = crate::text::texts(a@);
    let ghost other = crate::text::texts(b@);
    let ghost keep = |t: Seq<char>| other.contains(t);
    let mut both: Vec<String> = Vec::new();
    assert(crate::text::texts(both@) == all.take(0).filter(keep)) by {
        reveal(Seq::filter);
    }
    let mut i: usize = 0;
    while i < a.len()
        invariant
            i <= a.len(),
            all == crate::text::texts(a@),
            other == crate::text::texts(b@),
            keep == (|t: Seq<char>| other.contains(t)),
            crate::text::texts(both@) == all.take(i as int).filter(keep),
        decreases a.len() - i,
    {
        proof {
            crate::lists::lemma_filter_step(all, i as int, keep);
        }
        assert(all[i as int] == a@[i as int]@);
        if listed(b, a[i].as_str()) {
            let ghost before = both@;
            let word = a[i].clone();
            both.push(word);
            assert(crate::text::texts(both@) == crate::text::texts(before).push(word@));
        }
        i = i + 1;
    }
    assert(all.take(i as int) == all);
    both
}

/// Checks the law of a rule.
fn check_law(rule: &Rule, issues: &mut Vec<ValidationIssue>)
    ensures
        issue_views(final(issues)@) == issue_views(old(issues)@) + law_issues(*rule),
{
    if find_last_article(rule.source.law.as_str()).is_none() {
        let mut message = "法条名称不在本地法规清单内: '".to_owned();
        message.append(rule.source.law.as_str());
        message.append("'（请登记到 KNOWN_LAWS）");
        let made = make_issue(rule, "source.law", message);
        issues.push(made);
    }
    assert(issue_views(issues@) == issue_views(old(issues)@) + law_issues(*rule));
}

/// Checks the article of a rule.
fn check_article(rule: &Rule, issues: &mut Vec<ValidationIssue>)
    requires
        has_small_article(*rule),
    ensures
        issue_views(final(issues)@) == issue_views(old(issues)@) + article_issues(*rule),
{
    let max = find_last_article(rule.source.law.as_str());
    match normalize_article(rule.source.article.as_str()) {
        Some(n) => {
            if let Some(max) = max {
                if n > max {
                    let number = decimal(n as u64);
                    let bound = decimal(max as u64);
                    let mut message = "条款序号 ".to_owned();
                    message.append(number.as_str());
                    message.append(" 超出《");
                    message.append(rule.source.law.as_str());
                    message.append("》上限（");
                    message.append(bound.as_str());
                    message.append(" 条）");
                    let made = make_issue(rule, "source.article", message);
                    issues.push(made);
                }
            }
        },
        None => {
            let mut message = "条款编号格式不合法: '".to_owned();
            message.append(rule.source.article.as_str());
            message.append("'（支持 '第十八条' / '第18条'）");
            let made = make_issue(rule, "source.article", message);
            issues.push(made);
        },
    }
    assert(issue_views(issues@) == issue_views(old(issues)@) + article_issues(*rule));
}

/// The single text of the value of a pattern.
fn value_of(p: &Pattern) -> (value: Option<String>)
    ensures
        crate::outside::optional_text(value) == single_value(*p),
{
    match &p.value {
        Some(v) => v.as_single(),
        None => None,
    }
}

/// The message with which the regular expression of a pattern is refused, if it is one.
fn find_refusal(p: &Pattern) -> (refused: Option<String>)
    ensures
        crate::outside::optional_text(refused) == refusal_of(*p),
{
    if p.ptype == PatternType::Regex {
        if let Some(source) = value_of(p) {
            let normalized = normalize_regex(source.as_str());
            if let Err(reason) = compile_regex(normalized.as_str()) {
                return Some(reason);
            }
        }
    }
    None
}

/// The models of some optional texts.
pub open spec fn optional_texts(list: Seq<Option<String>>) -> Seq<Option<Seq<char>>> {
    list.map_values(|t: Option<String>| crate::outside::optional_text(t))
}

/// The messages with which the regular expressions of a rule are refused.
fn find_refusals(rule: &Rule) -> (refused: Vec<Option<String>>)
    ensures
        optional_texts(refused@) == refusals(*rule),
{
    let mut refused: Vec<Option<String>> = Vec::new();
    let mut i: usize = 0;
    while i < rule.patterns.len()
        invariant
            i <= rule.patterns.len(),
            refused@.len() == i,
            forall|k: int|
                0 <= k < i ==> crate::outside::optional_text(#[trigger] refused@[k])
                    == refusal_of(rule.patterns@[k]),
        decreases rule.patterns.len() - i,
    {
        let reason = find_refusal(&rule.patterns[i]);
        refused.push(reason);
        i = i + 1;
    }
    assert(optional_texts(refused@) == refusals(*rule));
    refused
}

/// Checks the regular expression of one pattern.
fn check_pattern(
    rule: &Rule,
    i: usize,
    refused: &Option<String>,
    issues: &mut Vec<ValidationIssue>,
)
    requires
        i < rule.patterns@.len(),
    ensures
        issue_views(final(issues)@) == issue_views(old(issues)@) + pattern_issues(
            *rule,
            i as int,
            crate::outside::optional_text(*refused),
        ),
{
    let p = &rule.patterns[i];
    if p.ptype == PatternType::Regex {
        match value_of(p) {
            Some(source) => {
                if let Some(reason) = refused {
                    assert(i < rule.patterns.len());
                    let place = decimal((i + 1) as u64);
                    let mut message = "第 ".to_owned();
                    message.append(place.as_str());
                    message.append(" 个 regex 编译失败: ");
                    message.append(reason.as_str());
                    message.append("（pattern = ");
                    message.append(source.as_str());
                    message.append("）");
                    let made = make_issue(rule, "patterns.regex", message);
                    issues.push(made);
                }
            },
            None => {
                let made = make_issue(
                    rule,
                    "patterns.regex",
                    "regex pattern 缺少 value".to_owned(),
                );
                issues.push(made);
            },
        }
    }
    assert(issue_views(issues@) == issue_views(old(issues)@) + pattern_issues(
        *rule,
        i as int,
        crate::outside::optional_text(*refused),
    ));
}

/// Checks the regular expressions of a rule, given which of them are refused.
fn check_patterns(rule: &Rule, refused: &Vec<Option<String>>, issues: &mut Vec<ValidationIssue>)
    requires
        refused@.len() == rule.patterns@.len(),
    ensures
        issue_views(final(issues)@) == issue_views(old(issues)@) + regex_issues(
            *rule,
            optional_texts(refused@),
            rule.patterns@.len() as int,
        ),
{
    let mut i: usize = 0;
    let ghost given = optional_texts(refused@);
    let ghost before = issue_views(issues@);
    assert(issue_views(issues@) == before + regex_issues(*rule, given, 0));
    while i < rule.patterns.len()
        invariant
            i <= rule.patterns.len(),
            refused@.len() == rule.patterns@.len(),
            given == optional_texts(refused@),
            issue_views(issues@) == before + regex_issues(*rule, given, i as int),
        decreases rule.patterns.len() - i,
    {
        check_pattern(rule, i, &refused[i], issues);
        assert(given[i as int] == crate::outside::optional_text(refused@[i as int]));
        assert(issue_views(issues@) == before + regex_issues(*rule, given, i + 1));
        i = i + 1;
    }
}

/// Checks that two lists of the conditions do not overlap.
fn check_overlap(
    rule: &Rule,
    wanted: &Option<Vec<String>>,
    excluded: &Option<Vec<String>>,
    lead: &str,
    issues: &mut Vec<ValidationIssue>,
)
    ensures
        issue_views(final(issues)@) == issue_views(old(issues)@) + overlap_issues(
            *rule,
            *wanted,
            *excluded,
            lead@,
        ),
{
    if let Some(a) = wanted {
        if let Some(b) = excluded {
            let both = find_overlap(a, b);
            assert(crate::text::texts(both@).len() == both@.len());
            if both.len() > 0 {
                let mut message = lead.to_owned();
                let list = show_list(&both);
                message.append(list.as_str());
                let made = make_issue(rule, "conditions", message);
                issues.push(made);
            }
        }
    }
    assert(issue_views(issues@) == issue_views(old(issues)@) + overlap_issues(
        *rule,
        *wanted,
        *excluded,
        lead@,
    ));
}

/// Checks that the conditions of a rule do not contradict each other.
fn check_conflicts(rule: &Rule, issues: &mut Vec<ValidationIssue>)
    ensures
        issue_views(final(issues)@) == issue_views(old(issues)@) + condition_issues(*rule),
{
    let none: Option<Vec<String>> = None;
    let triggers = match &rule.conditions.trigger {
        Some(trigger) => &trigger.chapter_keywords,
        None => &none,
    };
    let excluded_words = match &rule.conditions.exclude {
        Some(exclude) => &exclude.clause_keywords,
        None => &none,
    };
    let excluded_types = match &rule.conditions.exclude {
        Some(exclude) => &exclude.project_types,
        None => &none,
    };
    check_overlap(
        rule,
        triggers,
        excluded_words,
        "trigger.chapter_keywords 与 exclude.clause_keywords 重叠: ",
        issues,
    );
    check_overlap(
        rule,
        &rule.conditions.project_types,
        excluded_types,
        "project_types 与 exclude.project_types 重叠: ",
        issues,
    );
    assert(issue_views(issues@) == issue_views(old(issues)@) + condition_issues(*rule));
}

/// The names of the industries.
fn industries() -> (names: Vec<String>)
    ensures
        crate::text::texts(names@) == industry_names(),
{
    let list = INDUSTRIES;
    let mut names: Vec<String> = Vec::new();
    let mut i: usize = 0;
    while i < list.len()
        invariant
            i <= list@.len(),
            list@ == INDUSTRIES@,
            names@.len() == i,
            forall|k: int| 0 <= k < i ==> (#[trigger] names@[k])@ == list@[k]@,
        decreases list.len() - i,
    {
        let name = list[i].to_owned();
        names.push(name);
        i = i + 1;
    }
    assert(crate::text::texts(names@) == industry_names());
    names
}

/// Checks the industry of a rule.
fn check_industry(rule: &Rule, issues: &mut Vec<ValidationIssue>)
    ensures
        issue_views(final(issues)@) == issue_views(old(issues)@) + industry_issues(*rule),
{
    let names = industries();
    if !listed(&names, rule.industry.as_str()) {
        let mut message = "industry '".to_owned();
        message.append(rule.industry.as_str());
        message.append("' 不在分类体系内 ");
        let list = show_list(&names);
        message.append(list.as_str());
        let made = make_issue(rule, "industry", message);
        issues.push(made);
    }
    assert(issue_views(issues@) == issue_views(old(issues)@) + industry_issues(*rule));
}

/// The static checks on rules.
pub struct RuleValidator;

impl RuleValidator {
    /// Checks one rule, given the messages with which its regular expressions are refused, one
    /// place for each pattern.
    pub fn validate_given(rule: &Rule, refused: &Vec<Option<String>>) -> (report: ValidationReport)
        requires
            has_small_article(*rule),
            refused@.len() == rule.patterns@.len(),
        ensures
            report.total == 1,
            report.passed == (if issues_given(*rule, optional_texts(refused@)).len() == 0 {
                1int
            } else {
                0int
            }),
            issue_views(report.issues@) == issues_given(*rule, optional_texts(refused@)),
    {
        let mut issues: Vec<ValidationIssue> = Vec::new();
        check_law(rule, &mut issues);
        check_article(rule, &mut issues);
        check_patterns(rule, refused, &mut issues);
        check_conflicts(rule, &mut issues);
        check_industry(rule, &mut issues);
        assert(issue_views(issues@) == issues_given(*rule, optional_texts(refused@)));
        assert(issue_views(issues@).len() == issues@.len());
        let passed: usize = if issues.len() == 0 {
            1
        } else {
            0
        };
        ValidationReport { total: 1, passed, issues }
    }

    /// Checks one rule.
    pub fn validate(rule: &Rule) -> (report: ValidationReport)
        requires
            has_small_article(*rule),
        ensures
            report.total == 1,
            report.passed == (if passes(*rule) {
                1int
            } else {
                0int
            }),
            issue_views(report.issues@) == issues_of(*rule),
    {
        let refused = find_refusals(rule);
        assert(refused@.len() == optional_texts(refused@).len());
        Self::validate_given(rule, &refused)
    }

    /// Checks a list of rules and sums up the reports.
    pub fn validate_all(rules: &[Rule]) -> (report: ValidationReport)
        requires
            forall|i: int| 0 <= i < rules@.len() ==> has_small_article(#[trigger] rules@[i]),
        ensures
            report.total == rules@.len(),
            report.passed == passing_rules(rules@).len(),
            issue_views(report.issues@) == all_issues(rules@),
    {
        let ghost all = rules@;
        let ghost keep = |r: Rule| passes(r);
        let mut passed: usize = 0;
        let mut issues: Vec<ValidationIssue> = Vec::new();
        let mut i: usize = 0;
        assert(passing_rules(all.take(0)).len() == 0) by {
            reveal(Seq::filter);
        }
        while i < rules.len()
            invariant
                i <= rules@.len(),
                all == rules@,
                keep == (|r: Rule| passes(r)),
                forall|k: int| 0 <= k < rules@.len() ==> has_small_article(#[trigger] rules@[k]),
                passed <= i,
                passed == passing_rules(all.take(i as int)).len(),
                issue_views(issues@) == all_issues(all.take(i as int)),
            decreases rules.len() - i,
        {
            assert(has_small_article(rules@[i as int]));
            let mut report = Self::validate(&rules[i]);
            proof {
                crate::lists::lemma_filter_step(all, i as int, keep);
                assert(all.take(i + 1).drop_last() == all.take(i as int));
                assert(all.take(i + 1).last() == all[i as int]);
            }
            passed = passed + report.passed;
            let ghost before = issues@;
            let ghost found = report.issues@;
            issues.append(&mut report.issues);
            assert(issue_views(issues@) == issue_views(before) + issue_views(found));
            i = i + 1;
        }
        assert(all.take(i as int) == all);
        ValidationReport { total: rules.len(), passed, issues }
    }

    /// The rules with which nothing is wrong.
    pub fn passing(rules: &[Rule]) -> (list: Vec<&Rule>)
        requires
            forall|i: int| 0 <= i < rules@.len() ==> has_small_article(#[trigger] rules@[i]),
        ensures
            list@.map_values(|r: &Rule| *r) == passing_rules(rules@),
    {
        let ghost all = rules@;
        let ghost keep = |r: Rule| passes(r);
        let mut list: Vec<&Rule> = Vec::new();
        let mut i: usize = 0;
        assert(list@.map_values(|r: &Rule| *r) == all.take(0).filter(keep)) by {
            reveal(Seq::filter);
        }
        while i < rules.len()
            invariant
                i <= rules@.len(),
                all == rules@,
                keep == (|r: Rule| passes(r)),
                forall|k: int| 0 <= k < rules@.len() ==> has_small_article(#[trigger] rules@[k]),
                list@.map_values(|r: &Rule| *r) == all.take(i as int).filter(keep),
            decreases rules.len() - i,
        {
            assert(has_small_article(rules@[i as int]));
            let report = Self::validate(&rules[i]);
            proof {
                crate::lists::lemma_filter_step(all, i as int, keep);
            }
            assert(issue_views(report.issues@).len() == report.issues@.len());
            if report.is_pass() {
                let ghost before = list@;
                list.push(&rules[i]);
                assert(list@.map_values(|r: &Rule| *r) == before.map_values(|r: &Rule| *r).push(
                    all[i as int],
                ));
            }
            i = i + 1;
        }
        assert(all.take(i as int) == all);
        list
    }
}

// ── Laws ──

/// All issues of two lists of rules are those of the one and then those of the other.
pub proof fn issues_of_lists_add_up(a: Seq<Rule>, b: Seq<Rule>)
    ensures
        all_issues(a + b) == all_issues(a) + all_issues(b),
    decreases b.len(),
{
    if b.len() == 0 {
        assert(a + b == a);
        assert(all_issues(a) + all_issues(b) == all_issues(a));
    } else {
        issues_of_lists_add_up(a, b.drop_last());
        assert((a + b).drop_last() == a + b.drop_last());
        assert((a + b).last() == b.last());
    }
}

/// No more rules pass than there are; all of them pass exactly where there is no issue.
pub proof fn all_pass_exactly_without_issues(rules: Seq<Rule>)
    ensures
        passing_rules(rules).len() <= rules.len(),
        passing_rules(rules).len() == rules.len() <==> all_issues(rules).len() == 0,
    decreases rules.len(),
{
    reveal(Seq::filter);
    if rules.len() > 0 {
        all_pass_exactly_without_issues(rules.drop_last());
    }
}

/// What `passing` keeps passes again, and nothing that passes is dropped.
pub proof fn passing_rules_pass(rules: Seq<Rule>)
    ensures
        all_issues(passing_rules(rules)).len() == 0,
        passing_rules(passing_rules(rules)) == passing_rules(rules),
        forall|i: int|
            0 <= i < rules.len() && passes(#[trigger] rules[i]) ==> passing_rules(rules).contains(
                rules[i],
            ),
    decreases rules.len(),
{
    reveal(Seq::filter);
    if rules.len() > 0 {
        let rest = rules.drop_last();
        passing_rules_pass(rest);
        let kept = passing_rules(rest);
        if passes(rules.last()) {
            let more = kept.push(rules.last());
            assert(more.drop_last() == kept);
            assert(more.last() == rules.last());
            assert(passing_rules(rules) == more);
        }
        assert forall|i: int| 0 <= i < rules.len() && passes(#[trigger] rules[i]) implies
            passing_rules(rules).contains(rules[i]) by {
            if i < rest.len() {
                assert(rest[i] == rules[i]);
                let k = choose|k: int| 0 <= k < kept.len() && kept[k] == rules[i];
                assert(passing_rules(rules)[k] == rules[i]);
            } else {
                assert(passing_rules(rules).last() == rules[i]);
            }
        }
    }
}

/// The issues with each pattern stand among those with all of them.
proof fn lemma_regex_issues(rule: Rule, refused: Seq<Option<Seq<char>>>, i: int, n: int)
    requires
        0 <= i < n,
        regex_issues(rule, refused, n).len() == 0,
    ensures
        pattern_issues(rule, i, refused[i]).len() == 0,
    decreases n,
{
    if i < n - 1 {
        lemma_regex_issues(rule, refused, i, n - 1);
    }
}

/// A rule that passes rests on an article of a known law, belongs to a known industry, and each
/// of its regular expressions works in the engine.
pub proof fn a_rule_that_passes_is_sound(rule: Rule)
    requires
        passes(rule),
    ensures
        last_article(rule.source.law@) matches Some(max) && crate::article::article_number(
            rule.source.article@,
        ) matches Some(n) && n <= max,
        industry_names().contains(rule.industry@),
        forall|i: int|
            0 <= i < rule.patterns@.len() && (#[trigger] rule.patterns@[i]).ptype
                == PatternType::Regex ==> crate::engine::is_working_regex(rule.patterns@[i]),
{
    assert forall|i: int|
        0 <= i < rule.patterns@.len() && (#[trigger] rule.patterns@[i]).ptype
            == PatternType::Regex implies crate::engine::is_working_regex(rule.patterns@[i]) by {
        lemma_regex_issues(rule, refusals(rule), i, rule.patterns@.len() as int);
        assert(refusals(rule)[i] == refusal_of(rule.patterns@[i]));
    }
}

/// A text that is in both lists of an overlap is found.
proof fn lemma_overlap(a: Seq<Seq<char>>, b: Seq<Seq<char>>, t: Seq<char>)
    requires
        overlap(a, b).len() == 0,
        a.contains(t),
    ensures
        !b.contains(t),
{
    let keep = |t: Seq<char>| b.contains(t);
    broadcast use vstd::seq_lib::group_filter_ensures;

    if b.contains(t) {
        let i = choose|i: int| 0 <= i < a.len() && a[i] == t;
        assert(a.filter(keep).contains(a[i]));
    }
}

/// Whether there is a list and a text stands in it.
pub open spec fn stands_in(list: Option<Vec<String>>, text: Seq<char>) -> bool {
    list matches Some(v) && crate::text::texts(v@).contains(text)
}

/// In a rule that passes no word both triggers and excludes, and no project type is both wanted
/// and excluded.
pub proof fn a_rule_that_passes_does_not_contradict_itself(rule: Rule, word: Seq<char>)
    requires
        passes(rule),
    ensures
        !(stands_in(trigger_words(rule), word) && stands_in(exclude_words(rule), word)),
        !(stands_in(rule.conditions.project_types, word) && stands_in(exclude_types(rule), word)),
{
    if let (Some(a), Some(b)) = (trigger_words(rule), exclude_words(rule)) {
        if crate::text::texts(a@).contains(word) {
            lemma_overlap(crate::text::texts(a@), crate::text::texts(b@), word);
        }
    }
    if let (Some(a), Some(b)) = (rule.conditions.project_types, exclude_types(rule)) {
        if crate::text::texts(a@).contains(word) {
            lemma_overlap(crate::text::texts(a@), crate::text::texts(b@), word);
        }
    }
}

/// The names of the known laws are all different.
proof fn lemma_laws_differ()
    ensures
        forall|a: int, b: int|
            0 <= a < 10 && 0 <= b < 10 && a != b ==> (#[trigger] KNOWN_LAWS@[a]).0@ != (
            #[trigger] KNOWN_LAWS@[b]).0@,
{
    reveal_strlit("中华人民共和国招标投标法");
    reveal_strlit("中华人民共和国招标投标法实施条例");
    reveal_strlit("中华人民共和国政府采购法");
    reveal_strlit("中华人民共和国政府采购法实施条例");
    reveal_strlit("政府采购货物和服务招标投标管理办法");
    reveal_strlit("建设工程安全生产管理条例");
    reveal_strlit("危险性较大的分部分项工程安全管理规定");
    reveal_strlit("中华人民共和国民法典");
    reveal_strlit("中华人民共和国建筑法");
    reveal_strlit("中华人民共和国合同法");
    assert(forall|a: int|
        0 <= a < 10 ==> (
            (#[trigger] KNOWN_LAWS@[a]).0@.len(),
            KNOWN_LAWS@[a].0@[0],
            KNOWN_LAWS@[a].0@[7],
        ) == (if a == 0 {
            (12nat, '中', '招')
        } else if a == 1 {
            (16nat, '中', '招')
        } else if a == 2 {
            (12nat, '中', '政')
        } else if a == 3 {
            (16nat, '中', '政')
        } else if a == 4 {
            (17nat, '政', '服')
        } else if a == 5 {
            (12nat, '建', '产')
        } else if a == 6 {
            (18nat, '危', '部')
        } else if a == 7 {
            (10nat, '中', '民')
        } else if a == 8 {
            (10nat, '中', '建')
        } else {
            (10nat, '中', '合')
        }));
}

/// The entry that names a law is found in a list where no other one does.
proof fn lemma_entry_is_found(list: Seq<(&'static str, u32)>, law: Seq<char>, k: int)
    requires
        0 <= k < list.len(),
        list[k].0@ == law,
        forall|j: int| 0 <= j < k ==> (#[trigger] list[j]).0@ != law,
    ensures
        last_article_in(list, law) == Some(list[k].1),
    decreases k,
{
    if k > 0 {
        let rest = list.drop_first();
        assert(list[0].0@ != law);
        assert forall|j: int| 0 <= j < k - 1 implies (#[trigger] rest[j]).0@ != law by {
            assert(rest[j] == list[j + 1]);
        }
        lemma_entry_is_found(rest, law, k - 1);
    }
}

/// A law that no entry names is not found.
proof fn lemma_no_entry_is_found(list: Seq<(&'static str, u32)>, law: Seq<char>)
    requires
        forall|j: int| 0 <= j < list.len() ==> (#[trigger] list[j]).0@ != law,
    ensures
        last_article_in(list, law) is None,
    decreases list.len(),
{
    if list.len() > 0 {
        let rest = list.drop_first();
        assert(list[0].0@ != law);
        assert forall|j: int| 0 <= j < rest.len() implies (#[trigger] rest[j]).0@ != law by {
            assert(rest[j] == list[j + 1]);
        }
        lemma_no_entry_is_found(rest, law);
    }
}

/// Each known law is found under its own name, with the number of its own last article; under a
/// name that is not one of theirs, whole, no law is found.
pub proof fn a_law_is_known_by_its_whole_name(law: Seq<char>, k: int)
    ensures
        0 <= k < 10 && law == KNOWN_LAWS@[k].0@ ==> last_article(law) == Some(KNOWN_LAWS@[k].1),
        (forall|j: int| 0 <= j < 10 ==> law != (#[trigger] KNOWN_LAWS@[j]).0@) ==> last_article(law)
            is None,
        last_article(law) is Some ==> exists|j: int|
            0 <= j < 10 && law == (#[trigger] KNOWN_LAWS@[j]).0@,
{
    lemma_laws_differ();
    if 0 <= k < 10 && law == KNOWN_LAWS@[k].0@ {
        lemma_entry_is_found(KNOWN_LAWS@, law, k);
    }
    if forall|j: int| 0 <= j < 10 ==> law != (#[trigger] KNOWN_LAWS@[j]).0@ {
        lemma_no_entry_is_found(KNOWN_LAWS@, law);
    }
}

/// The known laws have as many articles as they have.
pub proof fn the_last_articles_of_the_laws(law: Seq<char>)
    ensures
        law == "中华人民共和国招标投标法"@ ==> last_article(law) == Some(68u32),
        law == "中华人民共和国招标投标法实施条例"@ ==> last_article(law) == Some(87u32),
        law == "中华人民共和国政府采购法"@ ==> last_article(law) == Some(88u32),
        law == "中华人民共和国政府采购法实施条例"@ ==> last_article(law) == Some(81u32),
        law == "政府采购货物和服务招标投标管理办法"@ ==> last_article(law) == Some(76u32),
        law == "建设工程安全生产管理条例"@ ==> last_article(law) == Some(70u32),
        law == "危险性较大的分部分项工程安全管理规定"@ ==> last_article(law) == Some(45u32),
        law == "中华人民共和国民法典"@ ==> last_article(law) == Some(1260u32),
        law == "中华人民共和国建筑法"@ ==> last_article(law) == Some(85u32),
        law == "中华人民共和国合同法"@ ==> last_article(law) == Some(428u32),
{
    a_law_is_known_by_its_whole_name(law, 0);
    a_law_is_known_by_its_whole_name(law, 1);
    a_law_is_known_by_its_whole_name(law, 2);
    a_law_is_known_by_its_whole_name(law, 3);
    a_law_is_known_by_its_whole_name(law, 4);
    a_law_is_known_by_its_whole_name(law, 5);
    a_law_is_known_by_its_whole_name(law, 6);
    a_law_is_known_by_its_whole_name(law, 7);
    a_law_is_known_by_its_whole_name(law, 8);
    a_law_is_known_by_its_whole_name(law, 9);
}

/// Whether one of some issues is with a field.
pub open spec fn has_issue_with(list: Seq<IssueView>, field: Seq<char>) -> bool {
    exists|i: int| 0 <= i < list.len() && (#[trigger] list[i]).field == field
}

/// An issue of two lists is one of the one or of the other.
proof fn lemma_issue_of_both(a: Seq<IssueView>, b: Seq<IssueView>, field: Seq<char>)
    ensures
        has_issue_with(a + b, field) == (has_issue_with(a, field) || has_issue_with(b, field)),
{
    let all = a + b;
    if has_issue_with(a, field) {
        let i = choose|i: int| 0 <= i < a.len() && (#[trigger] a[i]).field == field;
        assert(all[i] == a[i]);
    }
    if has_issue_with(b, field) {
        let i = choose|i: int| 0 <= i < b.len() && (#[trigger] b[i]).field == field;
        assert(all[a.len() + i] == b[i]);
    }
    if has_issue_with(all, field) {
        let i = choose|i: int| 0 <= i < all.len() && (#[trigger] all[i]).field == field;
        if i < a.len() {
            assert(a[i] == all[i]);
        } else {
            assert(b[i - a.len()] == all[i]);
        }
    }
}

/// The fields of the issues are all different.
proof fn lemma_fields_differ()
    ensures
        "source.law"@ != "source.article"@,
        "source.law"@ != "patterns.regex"@,
        "source.law"@ != "conditions"@,
        "source.law"@ != "industry"@,
        "source.article"@ != "patterns.regex"@,
        "source.article"@ != "conditions"@,
        "source.article"@ != "industry"@,
        "patterns.regex"@ != "conditions"@,
        "patterns.regex"@ != "industry"@,
        "conditions"@ != "industry"@,
{
    reveal_strlit("source.law");
    reveal_strlit("source.article");
    reveal_strlit("patterns.regex");
    reveal_strlit("conditions");
    reveal_strlit("industry");
    assert("source.law"@.len() == 10 && "source.law"@[0] == 's');
    assert("source.article"@.len() == 14 && "source.article"@[0] == 's');
    assert("patterns.regex"@.len() == 14 && "patterns.regex"@[0] == 'p');
    assert("conditions"@.len() == 10 && "conditions"@[0] == 'c');
    assert("industry"@.len() == 8);
}

/// All issues with patterns are with the regular expressions, and there is one where a pattern has
/// one.
proof fn lemma_pattern_fields(rule: Rule, refused: Seq<Option<Seq<char>>>, n: int)
    requires
        0 <= n <= rule.patterns@.len(),
    ensures
        forall|i: int|
            0 <= i < regex_issues(rule, refused, n).len() ==> (#[trigger] regex_issues(
                rule,
                refused,
                n,
            )[i]).field == "patterns.regex"@ && regex_issues(rule, refused, n)[i].rule_id
                == rule.id@,
        regex_issues(rule, refused, n).len() > 0 <==> exists|i: int|
            0 <= i < n && #[trigger] pattern_issues(rule, i, refused[i]).len() > 0,
    decreases n,
{
    if n > 0 {
        lemma_pattern_fields(rule, refused, n - 1);
        let before = regex_issues(rule, refused, n - 1);
        let here = pattern_issues(rule, n - 1, refused[n - 1]);
        let all = regex_issues(rule, refused, n);
        assert forall|i: int| 0 <= i < all.len() implies (#[trigger] all[i]).field
            == "patterns.regex"@ && all[i].rule_id == rule.id@ by {
            if i < before.len() {
                assert(all[i] == before[i]);
            } else {
                assert(all[i] == here[i - before.len()]);
            }
        }
        if all.len() > 0 && here.len() == 0 {
            let i = choose|i: int|
                0 <= i < n - 1 && #[trigger] pattern_issues(rule, i, refused[i]).len() > 0;
            assert(pattern_issues(rule, i, refused[i]).len() > 0);
        }
        if exists|i: int| 0 <= i < n && #[trigger] pattern_issues(rule, i, refused[i]).len() > 0 {
            let i = choose|i: int|
                0 <= i < n && #[trigger] pattern_issues(rule, i, refused[i]).len() > 0;
            if i < n - 1 {
                assert(before.len() > 0);
            }
        }
    }
}

/// Whether a pattern is a regular expression that has no text, or one that is refused.
pub open spec fn is_broken_regex(p: Pattern) -> bool {
    p.ptype == PatternType::Regex && match p.value {
        None => true,
        Some(crate::schema::PatternValue::Single(s)) => crate::outside::refusal(
            crate::escape::normalized(s@),
        ) is Some,
        Some(crate::schema::PatternValue::List(v)) => v@.len() == 0 || crate::outside::refusal(
            crate::escape::normalized(v@[0]@),
        ) is Some,
    }
}

/// Whether two lists are there and a text stands in both.
pub open spec fn share_a_text(a: Option<Vec<String>>, b: Option<Vec<String>>) -> bool {
    exists|i: int, j: int| #[trigger] is_shared(a, b, i, j)
}

/// Whether two lists are there and have the same text at those places.
pub open spec fn is_shared(a: Option<Vec<String>>, b: Option<Vec<String>>, i: int, j: int) -> bool {
    a matches Some(v) && b matches Some(w) && 0 <= i < v@.len() && 0 <= j < w@.len() && v@[i]@
        == w@[j]@
}

/// Two lists overlap exactly if a text stands in both.
proof fn lemma_overlap_is_shared(
    rule: Rule,
    a: Option<Vec<String>>,
    b: Option<Vec<String>>,
    message: Seq<char>,
)
    ensures
        overlap_issues(rule, a, b, message).len() > 0 <==> share_a_text(a, b),
        overlap_issues(rule, a, b, message).len() <= 1,
        forall|i: int|
            0 <= i < overlap_issues(rule, a, b, message).len() ==> (#[trigger] overlap_issues(
                rule,
                a,
                b,
                message,
            )[i]).field == "conditions"@ && overlap_issues(rule, a, b, message)[i].rule_id
                == rule.id@,
{
    if let (Some(v), Some(w)) = (a, b) {
        let (x, y) = (crate::text::texts(v@), crate::text::texts(w@));
        let keep = |t: Seq<char>| y.contains(t);
        let both = overlap(x, y);
        broadcast use vstd::seq_lib::group_filter_ensures;

        if both.len() > 0 {
            assert(keep(both[0]));
            assert(both.contains(both[0]));
            x.lemma_filter_contains_rev(keep, both[0]);
            let i = choose|i: int| 0 <= i < x.len() && x[i] == both[0];
            let j = choose|j: int| 0 <= j < y.len() && y[j] == both[0];
            assert(is_shared(a, b, i, j));
        }
        if share_a_text(a, b) {
            let (i, j) = choose|i: int, j: int| #[trigger] is_shared(a, b, i, j);
            assert(x[i] == y[j]);
            assert(keep(x[i]));
            assert(x.filter(keep).contains(x[i]));
        }
    } else if share_a_text(a, b) {
        let (i, j) = choose|i: int, j: int| #[trigger] is_shared(a, b, i, j);
        assert(is_shared(a, b, i, j));
    }
}

/// Whether all issues of a list are with a field of a rule.
spec fn are_with(list: Seq<IssueView>, rule: Rule, field: Seq<char>) -> bool {
    forall|i: int|
        0 <= i < list.len() ==> (#[trigger] list[i]).field == field && list[i].rule_id == rule.id@
}

/// Where all issues of a list are with one field, none is with another.
proof fn lemma_one_field(list: Seq<IssueView>, rule: Rule, own: Seq<char>, field: Seq<char>)
    requires
        are_with(list, rule, own),
    ensures
        has_issue_with(list, field) == (list.len() > 0 && own == field),
{
    if list.len() > 0 && own == field {
        assert(list[0].field == field);
    }
}

/// The issues of a rule with each field.
proof fn lemma_issues_are_with(rule: Rule)
    ensures
        are_with(law_issues(rule), rule, "source.law"@),
        are_with(article_issues(rule), rule, "source.article"@),
        are_with(
            regex_issues(rule, refusals(rule), rule.patterns@.len() as int),
            rule,
            "patterns.regex"@,
        ),
        are_with(condition_issues(rule), rule, "conditions"@),
        are_with(industry_issues(rule), rule, "industry"@),
{
    lemma_pattern_fields(rule, refusals(rule), rule.patterns@.len() as int);
    let first = "trigger.chapter_keywords 与 exclude.clause_keywords 重叠: "@;
    let second = "project_types 与 exclude.project_types 重叠: "@;
    let a = overlap_issues(rule, trigger_words(rule), exclude_words(rule), first);
    let b = overlap_issues(rule, rule.conditions.project_types, exclude_types(rule), second);
    lemma_overlap_is_shared(rule, trigger_words(rule), exclude_words(rule), first);
    lemma_overlap_is_shared(rule, rule.conditions.project_types, exclude_types(rule), second);
    let all = condition_issues(rule);
    assert forall|i: int| 0 <= i < all.len() implies (#[trigger] all[i]).field == "conditions"@
        && all[i].rule_id == rule.id@ by {
        if i < a.len() {
            assert(all[i] == a[i]);
        } else {
            assert(all[i] == b[i - a.len()]);
        }
    }
}

/// An issue with a rule is one of its law, its article, its regular expressions, its conditions or
/// its industry, and is with the field of that.
proof fn lemma_issue_parts(rule: Rule, field: Seq<char>)
    ensures
        has_issue_with(issues_of(rule), field) == ((law_issues(rule).len() > 0 && field
            == "source.law"@) || (article_issues(rule).len() > 0 && field == "source.article"@) || (
        regex_issues(rule, refusals(rule), rule.patterns@.len() as int).len() > 0 && field
            == "patterns.regex"@) || (condition_issues(rule).len() > 0 && field == "conditions"@)
            || (industry_issues(rule).len() > 0 && field == "industry"@)),
        forall|i: int|
            0 <= i < issues_of(rule).len() ==> (#[trigger] issues_of(rule)[i]).rule_id == rule.id@,
{
    lemma_issues_are_with(rule);
    let a = law_issues(rule);
    let b = article_issues(rule);
    let c = regex_issues(rule, refusals(rule), rule.patterns@.len() as int);
    let d = condition_issues(rule);
    let e = industry_issues(rule);
    lemma_one_field(a, rule, "source.law"@, field);
    lemma_one_field(b, rule, "source.article"@, field);
    lemma_one_field(c, rule, "patterns.regex"@, field);
    lemma_one_field(d, rule, "conditions"@, field);
    lemma_one_field(e, rule, "industry"@, field);
    lemma_issue_of_both(a, b, field);
    lemma_issue_of_both(a + b, c, field);
    lemma_issue_of_both(a + b + c, d, field);
    lemma_issue_of_both(a + b + c + d, e, field);
    let all = issues_of(rule);
    assert forall|i: int| 0 <= i < all.len() implies (#[trigger] all[i]).rule_id == rule.id@ by {
        let (la, lb, lc, ld) = (a.len(), b.len(), c.len(), d.len());
        if i < la {
            assert(all[i] == a[i]);
        } else if i < la + lb {
            assert(all[i] == b[i - la]);
        } else if i < la + lb + lc {
            assert(all[i] == c[i - la - lb]);
        } else if i < la + lb + lc + ld {
            assert(all[i] == d[i - la - lb - lc]);
        } else {
            assert(all[i] == e[i - la - lb - lc - ld]);
        }
    }
}

/// What is wrong with a rule is told by the field: its law is not a known one; its article has no
/// number, or one beyond the last article of its law; one of its regular expressions is missing or
/// does not compile; a word both triggers and excludes, or a project type is both wanted and
/// excluded; its industry is not a known one. Nothing else is told, and each issue names the rule.
pub proof fn what_is_wrong_is_told_by_the_field(rule: Rule)
    ensures
        has_issue_with(issues_of(rule), "source.law"@) <==> forall|k: int|
            0 <= k < 10 ==> rule.source.law@ != (#[trigger] KNOWN_LAWS@[k]).0@,
        has_issue_with(issues_of(rule), "source.article"@) <==> match crate::article::article_number(
            rule.source.article@,
        ) {
            None => true,
            Some(n) => exists|k: int|
                0 <= k < 10 && rule.source.law@ == (#[trigger] KNOWN_LAWS@[k]).0@ && n
                    > KNOWN_LAWS@[k].1,
        },
        has_issue_with(issues_of(rule), "patterns.regex"@) <==> exists|i: int|
            0 <= i < rule.patterns@.len() && is_broken_regex(#[trigger] rule.patterns@[i]),
        has_issue_with(issues_of(rule), "conditions"@) <==> share_a_text(
            match rule.conditions.trigger {
                Some(t) => t.chapter_keywords,
                None => None,
            },
            match rule.conditions.exclude {
                Some(e) => e.clause_keywords,
                None => None,
            },
        ) || share_a_text(
            rule.conditions.project_types,
            match rule.conditions.exclude {
                Some(e) => e.project_types,
                None => None,
            },
        ),
        has_issue_with(issues_of(rule), "industry"@) <==> rule.industry@ != "建筑工程"@
            && rule.industry@ != "政府采购"@ && rule.industry@ != "IT"@ && rule.industry@
            != "通用"@,
        forall|i: int|
            0 <= i < issues_of(rule).len() ==> (#[trigger] issues_of(rule)[i]).rule_id == rule.id@,
        issues_of(rule).len() > 0 <==> has_issue_with(issues_of(rule), "source.law"@)
            || has_issue_with(issues_of(rule), "source.article"@) || has_issue_with(
            issues_of(rule),
            "patterns.regex"@,
        ) || has_issue_with(issues_of(rule), "conditions"@) || has_issue_with(
            issues_of(rule),
            "industry"@,
        ),
{
    lemma_fields_differ();
    lemma_issue_parts(rule, "source.law"@);
    lemma_issue_parts(rule, "source.article"@);
    lemma_issue_parts(rule, "patterns.regex"@);
    lemma_issue_parts(rule, "conditions"@);
    lemma_issue_parts(rule, "industry"@);
    let law = rule.source.law@;
    a_law_is_known_by_its_whole_name(law, 0);
    assert forall|k: int| 0 <= k < 10 && law == (#[trigger] KNOWN_LAWS@[k]).0@ implies last_article(
        law,
    ) == Some(KNOWN_LAWS@[k].1) by {
        a_law_is_known_by_its_whole_name(law, k);
    }
    lemma_regexes_are_broken(rule);
    lemma_overlap_is_shared(
        rule,
        trigger_words(rule),
        exclude_words(rule),
        "trigger.chapter_keywords 与 exclude.clause_keywords 重叠: "@,
    );
    lemma_overlap_is_shared(
        rule,
        rule.conditions.project_types,
        exclude_types(rule),
        "project_types 与 exclude.project_types 重叠: "@,
    );
    let names = industry_names();
    assert(names.len() == 4 && names[0] == "建筑工程"@ && names[1] == "政府采购"@ && names[2]
        == "IT"@ && names[3] == "通用"@);
}

/// There is an issue with the regular expressions exactly if one of them is broken.
proof fn lemma_regexes_are_broken(rule: Rule)
    ensures
        regex_issues(rule, refusals(rule), rule.patterns@.len() as int).len() > 0 <==> exists|i: int|
            0 <= i < rule.patterns@.len() && is_broken_regex(#[trigger] rule.patterns@[i]),
{
    let refused = refusals(rule);
    let n = rule.patterns@.len() as int;
    lemma_pattern_fields(rule, refused, n);
    assert forall|i: int| 0 <= i < n implies (#[trigger] pattern_issues(rule, i, refused[i]).len()
        > 0) == is_broken_regex(rule.patterns@[i]) by {
        assert(refused[i] == refusal_of(rule.patterns@[i]));
    }
    if exists|i: int| 0 <= i < n && is_broken_regex(#[trigger] rule.patterns@[i]) {
        let i = choose|i: int| 0 <= i < n && is_broken_regex(#[trigger] rule.patterns@[i]);
        assert(pattern_issues(rule, i, refused[i]).len() > 0);
    }
    if regex_issues(rule, refused, n).len() > 0 {
        let i = choose|i: int|
            0 <= i < n && #[trigger] pattern_issues(rule, i, refused[i]).len() > 0;
        assert(is_broken_regex(rule.patterns@[i]));
    }
}

/// A text that is put together of parts contains each of them.
proof fn lemma_part_is_contained(before: Seq<char>, part: Seq<char>, after: Seq<char>, text: Seq<char>)
    requires
        text == before + part + after,
    ensures
        crate::text::contains_text(text, part),
{
    crate::text::a_written_word_is_contained(before, part, after);
}

/// A message tells what is wrong: the law that is not known; the number of the article and the last
/// one of its law, or the article that has no number; the place of a regular expression, its text
/// and why it is refused; the industry that is not known.
pub proof fn a_message_tells_what_is_wrong(rule: Rule, i: int, reason: Seq<char>, value: Seq<char>)
    ensures
        law_issues(rule).len() <= 1,
        law_issues(rule).len() == 1 ==> crate::text::contains_text(
            law_issues(rule)[0].message,
            rule.source.law@,
        ),
        article_issues(rule).len() <= 1,
        article_issues(rule).len() == 1 ==> match crate::article::article_number(
            rule.source.article@,
        ) {
            Some(n) => crate::text::contains_text(
                article_issues(rule)[0].message,
                "条款序号 "@ + crate::number::decimal_text(n) + " "@,
            ) && crate::text::contains_text(article_issues(rule)[0].message, rule.source.law@)
                && crate::text::contains_text(
                article_issues(rule)[0].message,
                "（"@ + crate::number::decimal_text(last_article(rule.source.law@)->0 as nat)
                    + " 条）"@,
            ),
            None => crate::text::contains_text(
                article_issues(rule)[0].message,
                rule.source.article@,
            ),
        },
        0 <= i < rule.patterns@.len() && rule.patterns@[i].ptype == PatternType::Regex
            && single_value(rule.patterns@[i]) == Some(value) ==> {
            let list = pattern_issues(rule, i, Some(reason));
            &&& list.len() == 1
            &&& crate::text::contains_text(
                list[0].message,
                "第 "@ + crate::number::decimal_text((i + 1) as nat) + " 个"@,
            )
            &&& crate::text::contains_text(list[0].message, reason)
            &&& crate::text::contains_text(list[0].message, value)
            &&& pattern_issues(rule, i, None).len() == 0
        },
        industry_issues(rule).len() <= 1,
        industry_issues(rule).len() == 1 ==> crate::text::contains_text(
            industry_issues(rule)[0].message,
            rule.industry@,
        ),
{
    let empty = Seq::<char>::empty();
    if law_issues(rule).len() == 1 {
        lemma_part_is_contained(
            "法条名称不在本地法规清单内: '"@,
            rule.source.law@,
            "'（请登记到 KNOWN_LAWS）"@,
            law_issues(rule)[0].message,
        );
    }
    if article_issues(rule).len() == 1 {
        let message = article_issues(rule)[0].message;
        let law = rule.source.law@;
        match crate::article::article_number(rule.source.article@) {
            Some(n) => {
                let max = last_article(law)->0 as nat;
                let (x, y) = (crate::number::decimal_text(n), crate::number::decimal_text(max));
                reveal_strlit("条款序号 ");
                reveal_strlit(" 超出《");
                reveal_strlit(" ");
                reveal_strlit("超出《");
                reveal_strlit("》上限（");
                reveal_strlit("》上限");
                reveal_strlit("（");
                assert(" 超出《"@ =~= " "@ + "超出《"@);
                assert("》上限（"@ =~= "》上限"@ + "（"@);
                assert(message =~= empty + ("条款序号 "@ + x + " "@) + ("超出《"@ + law + "》上限（"@ + y
                    + " 条）"@));
                lemma_part_is_contained(
                    empty,
                    "条款序号 "@ + x + " "@,
                    "超出《"@ + law + "》上限（"@ + y + " 条）"@,
                    message,
                );
                assert(message =~= ("条款序号 "@ + x + " 超出《"@) + law + ("》上限（"@ + y + " 条）"@));
                lemma_part_is_contained(
                    "条款序号 "@ + x + " 超出《"@,
                    law,
                    "》上限（"@ + y + " 条）"@,
                    message,
                );
                assert(message =~= ("条款序号 "@ + x + " 超出《"@ + law + "》上限"@) + ("（"@ + y
                    + " 条）"@) + empty);
                lemma_part_is_contained(
                    "条款序号 "@ + x + " 超出《"@ + law + "》上限"@,
                    "（"@ + y + " 条）"@,
                    empty,
                    message,
                );
            },
            None => {
                lemma_part_is_contained(
                    "条款编号格式不合法: '"@,
                    rule.source.article@,
                    "'（支持 '第十八条' / '第18条'）"@,
                    message,
                );
            },
        }
    }
    if 0 <= i < rule.patterns@.len() && rule.patterns@[i].ptype == PatternType::Regex
        && single_value(rule.patterns@[i]) == Some(value) {
        let message = pattern_issues(rule, i, Some(reason))[0].message;
        let place = crate::number::decimal_text((i + 1) as nat);
        reveal_strlit(" 个 regex 编译失败: ");
        reveal_strlit(" 个");
        reveal_strlit(" regex 编译失败: ");
        assert(" 个 regex 编译失败: "@ =~= " 个"@ + " regex 编译失败: "@);
        let rest = " regex 编译失败: "@ + reason + "（pattern = "@ + value + "）"@;
        assert(message =~= empty + ("第 "@ + place + " 个"@) + rest);
        lemma_part_is_contained(empty, "第 "@ + place + " 个"@, rest, message);
        let lead = "第 "@ + place + " 个 regex 编译失败: "@;
        assert(message =~= lead + reason + ("（pattern = "@ + value + "）"@));
        lemma_part_is_contained(lead, reason, "（pattern = "@ + value + "）"@, message);
        lemma_part_is_contained(lead + reason + "（pattern = "@, value, "）"@, message);
    }
    if industry_issues(rule).len() == 1 {
        let message = industry_issues(rule)[0].message;
        let rest = "' 不在分类体系内 "@ + shown_list(industry_names());
        assert(message =~= "industry '"@ + rule.industry@ + rest);
        lemma_part_is_contained("industry '"@, rule.industry@, rest, message);
    }
}

/// Rules are judged one by one: those that pass of two lists are those of the one and then those
/// of the other, and a rule alone passes or does not.
pub proof fn rules_are_judged_one_by_one(a: Seq<Rule>, b: Seq<Rule>)
    ensures
        passing_rules(a + b) == passing_rules(a) + passing_rules(b),
        a.len() == 1 ==> passing_rules(a) == (if issues_of(a[0]).len() == 0 {
            a
        } else {
            Seq::empty()
        }),
        a.len() == 1 ==> all_issues(a) == issues_of(a[0]),
{
    let keep = |r: Rule| passes(r);
    Seq::filter_distributes_over_add(a, b, keep);
    if a.len() == 1 {
        reveal(Seq::filter);
        assert(a.drop_last() =~= Seq::<Rule>::empty());
        assert(all_issues(a.drop_last()) =~= Seq::<IssueView>::empty());
        assert(all_issues(a) =~= issues_of(a[0]));
        assert(passing_rules(a.drop_last()) =~= Seq::<Rule>::empty());
        if passes(a[0]) {
            assert(passing_rules(a) =~= a);
        }
    }
}

/// A list is shown in brackets, each of its texts in quotation marks, with a comma and a blank
/// between each two.
pub proof fn a_list_is_shown_in_brackets(list: Seq<Seq<char>>, text: Seq<char>)
    ensures
        shown_list(Seq::empty()) == "["@ + "]"@,
        shown_list(seq![text]) == "["@ + crate::outside::quoted_text(text) + "]"@,
        list.len() > 0 ==> shown_list(list.push(text)) == shown_list(list).drop_last() + ", "@
            + crate::outside::quoted_text(text) + "]"@,
{
    let quote = |t: Seq<char>| crate::outside::quoted_text(t);
    reveal_strlit("]");
    assert(Seq::<Seq<char>>::empty().map_values(quote) =~= Seq::<Seq<char>>::empty());
    assert("["@ + Seq::<char>::empty() + "]"@ =~= "["@ + "]"@);
    assert(seq![text].map_values(quote) =~= seq![quote(text)]);
    if list.len() > 0 {
        let all = list.map_values(quote);
        assert(list.push(text).map_values(quote) =~= all.push(quote(text)));
        assert(all.push(quote(text)).drop_last() =~= all);
        let inner = crate::text::joined(all, ", "@);
        assert(("["@ + inner + "]"@).drop_last() =~= "["@ + inner);
        assert("["@ + (inner + ", "@ + quote(text)) + "]"@ =~= "["@ + inner + ", "@ + quote(text)
            + "]"@);
    }
}

/// What two lists share is found text by text, in the order of the first list.
pub proof fn shared_texts_are_found_one_by_one(
    a: Seq<Seq<char>>,
    text: Seq<char>,
    b: Seq<Seq<char>>,
)
    ensures
        overlap(Seq::empty(), b).len() == 0,
        overlap(a.push(text), b) == (if exists|i: int| 0 <= i < b.len() && #[trigger] b[i] == text {
            overlap(a, b).push(text)
        } else {
            overlap(a, b)
        }),
{
    reveal(Seq::filter);
    assert(a.push(text).drop_last() =~= a);
    assert(b.contains(text) <==> exists|i: int| 0 <= i < b.len() && #[trigger] b[i] == text);
}

/// What stands in one of five lists stands in all of them behind each other.
proof fn lemma_in_five(
    a: Seq<IssueView>,
    b: Seq<IssueView>,
    c: Seq<IssueView>,
    d: Seq<IssueView>,
    e: Seq<IssueView>,
    x: IssueView,
)
    requires
        a.contains(x) || b.contains(x) || c.contains(x) || d.contains(x) || e.contains(x),
    ensures
        (a + b + c + d + e).contains(x),
{
    let all = a + b + c + d + e;
    if a.contains(x) {
        let i = choose|i: int| 0 <= i < a.len() && a[i] == x;
        assert(all[i] == x);
    } else if b.contains(x) {
        let i = choose|i: int| 0 <= i < b.len() && b[i] == x;
        assert(all[a.len() + i] == x);
    } else if c.contains(x) {
        let i = choose|i: int| 0 <= i < c.len() && c[i] == x;
        assert(all[a.len() + b.len() + i] == x);
    } else if d.contains(x) {
        let i = choose|i: int| 0 <= i < d.len() && d[i] == x;
        assert(all[a.len() + b.len() + c.len() + i] == x);
    } else {
        let i = choose|i: int| 0 <= i < e.len() && e[i] == x;
        assert(all[a.len() + b.len() + c.len() + d.len() + i] == x);
    }
}

/// What stands in one of the parts of the issues of a rule is one of its issues.
proof fn lemma_is_issue(rule: Rule, x: IssueView)
    requires
        law_issues(rule).contains(x) || article_issues(rule).contains(x) || regex_issues(
            rule,
            refusals(rule),
            rule.patterns@.len() as int,
        ).contains(x) || condition_issues(rule).contains(x) || industry_issues(rule).contains(x),
    ensures
        issues_of(rule).contains(x),
{
    lemma_in_five(
        law_issues(rule),
        article_issues(rule),
        regex_issues(rule, refusals(rule), rule.patterns@.len() as int),
        condition_issues(rule),
        industry_issues(rule),
        x,
    );
}

/// The issue with a pattern is one of those with the patterns.
proof fn lemma_is_regex_issue(
    rule: Rule,
    refused: Seq<Option<Seq<char>>>,
    n: int,
    i: int,
    x: IssueView,
)
    requires
        0 <= i < n,
        pattern_issues(rule, i, refused[i]).contains(x),
    ensures
        regex_issues(rule, refused, n).contains(x),
    decreases n,
{
    let before = regex_issues(rule, refused, n - 1);
    let last = pattern_issues(rule, n - 1, refused[n - 1]);
    let all = regex_issues(rule, refused, n);
    if i < n - 1 {
        lemma_is_regex_issue(rule, refused, n - 1, i, x);
        let k = choose|k: int| 0 <= k < before.len() && before[k] == x;
        assert(all[k] == x);
    } else {
        let k = choose|k: int| 0 <= k < last.len() && last[k] == x;
        assert(all[before.len() + k] == x);
    }
}

/// A law that is not known, and an article without a number or beyond the last of its law, are told
/// in these words.
pub proof fn the_words_for_a_wrong_source(rule: Rule)
    ensures
        last_article(rule.source.law@) is None ==> issues_of(rule).contains(
            IssueView {
                rule_id: rule.id@,
                field: "source.law"@,
                message: "法条名称不在本地法规清单内: '"@ + rule.source.law@
                    + "'（请登记到 KNOWN_LAWS）"@,
            },
        ),
        crate::article::article_number(rule.source.article@) is None ==> issues_of(rule).contains(
            IssueView {
                rule_id: rule.id@,
                field: "source.article"@,
                message: "条款编号格式不合法: '"@ + rule.source.article@
                    + "'（支持 '第十八条' / '第18条'）"@,
            },
        ),
        crate::article::article_number(rule.source.article@) is Some && last_article(
            rule.source.law@,
        ) is Some && crate::article::article_number(rule.source.article@)->0 > last_article(
            rule.source.law@,
        )->0 ==> issues_of(rule).contains(
            IssueView {
                rule_id: rule.id@,
                field: "source.article"@,
                message: "条款序号 "@ + crate::number::decimal_text(
                    crate::article::article_number(rule.source.article@)->0,
                ) + " 超出《"@ + rule.source.law@ + "》上限（"@ + crate::number::decimal_text(
                    last_article(rule.source.law@)->0 as nat,
                ) + " 条）"@,
            },
        ),
{
    if law_issues(rule).len() > 0 {
        assert(law_issues(rule).contains(law_issues(rule)[0]));
        lemma_is_issue(rule, law_issues(rule)[0]);
    }
    if article_issues(rule).len() > 0 {
        assert(article_issues(rule).contains(article_issues(rule)[0]));
        lemma_is_issue(rule, article_issues(rule)[0]);
    }
}

/// Each regular expression that is missing or refused has an issue of its own, in these words, with
/// its place as it is counted from one.
pub proof fn the_words_for_each_wrong_regex(rule: Rule, i: int, value: Seq<char>)
    requires
        0 <= i < rule.patterns@.len(),
        rule.patterns@[i].ptype == PatternType::Regex,
    ensures
        single_value(rule.patterns@[i]) is None ==> issues_of(rule).contains(
            IssueView {
                rule_id: rule.id@,
                field: "patterns.regex"@,
                message: "regex pattern 缺少 value"@,
            },
        ),
        single_value(rule.patterns@[i]) == Some(value) ==> (crate::outside::refusal(
            crate::escape::normalized(value),
        ) matches Some(reason) ==> issues_of(rule).contains(
            IssueView {
                rule_id: rule.id@,
                field: "patterns.regex"@,
                message: "第 "@ + crate::number::decimal_text((i + 1) as nat)
                    + " 个 regex 编译失败: "@ + reason + "（pattern = "@ + value + "）"@,
            },
        )),
{
    let refused = refusals(rule);
    assert(refused[i] == refusal_of(rule.patterns@[i]));
    let own = pattern_issues(rule, i, refused[i]);
    if own.len() > 0 {
        assert(own.contains(own[0]));
        lemma_is_regex_issue(rule, refused, rule.patterns@.len() as int, i, own[0]);
        lemma_is_issue(rule, own[0]);
    }
}

/// The regular expressions of a rule are judged one by one: each that is missing or refused adds
/// one issue, and no other pattern adds any.
pub proof fn each_wrong_regex_adds_one_issue(rule: Rule, n: int)
    requires
        0 <= n < rule.patterns@.len(),
    ensures
        regex_issues(rule, refusals(rule), 0).len() == 0,
        regex_issues(rule, refusals(rule), n + 1).take(
            regex_issues(rule, refusals(rule), n).len() as int,
        ) == regex_issues(rule, refusals(rule), n),
        regex_issues(rule, refusals(rule), n + 1).len() as int == regex_issues(
            rule,
            refusals(rule),
            n,
        ).len() as int + (if is_broken_regex(rule.patterns@[n]) {
            1int
        } else {
            0int
        }),
{
    let refused = refusals(rule);
    assert(refused[n] == refusal_of(rule.patterns@[n]));
    assert(regex_issues(rule, refused, n + 1).take(regex_issues(rule, refused, n).len() as int)
        =~= regex_issues(rule, refused, n));
}

/// Words that both trigger and exclude, project types that are both wanted and excluded, and an
/// industry that is not known are told in these words.
pub proof fn the_words_for_wrong_conditions(rule: Rule, a: Vec<String>, b: Vec<String>)
    ensures
        (rule.conditions.trigger matches Some(t) && t.chapter_keywords == Some(a)) && (
        rule.conditions.exclude matches Some(e) && e.clause_keywords == Some(b)) && overlap(
            crate::text::texts(a@),
            crate::text::texts(b@),
        ).len() > 0 ==> issues_of(rule).contains(
            IssueView {
                rule_id: rule.id@,
                field: "conditions"@,
                message: "trigger.chapter_keywords 与 exclude.clause_keywords 重叠: "@
                    + shown_list(overlap(crate::text::texts(a@), crate::text::texts(b@))),
            },
        ),
        rule.conditions.project_types == Some(a) && (rule.conditions.exclude matches Some(e)
            && e.project_types == Some(b)) && overlap(
            crate::text::texts(a@),
            crate::text::texts(b@),
        ).len() > 0 ==> issues_of(rule).contains(
            IssueView {
                rule_id: rule.id@,
                field: "conditions"@,
                message: "project_types 与 exclude.project_types 重叠: "@ + shown_list(
                    overlap(crate::text::texts(a@), crate::text::texts(b@)),
                ),
            },
        ),
        !industry_names().contains(rule.industry@) ==> issues_of(rule).contains(
            IssueView {
                rule_id: rule.id@,
                field: "industry"@,
                message: "industry '"@ + rule.industry@ + "' 不在分类体系内 "@ + shown_list(
                    seq!["建筑工程"@, "政府采购"@, "IT"@, "通用"@],
                ),
            },
        ),
{
    let first = overlap_issues(
        rule,
        trigger_words(rule),
        exclude_words(rule),
        "trigger.chapter_keywords 与 exclude.clause_keywords 重叠: "@,
    );
    let second = overlap_issues(
        rule,
        rule.conditions.project_types,
        exclude_types(rule),
        "project_types 与 exclude.project_types 重叠: "@,
    );
    let all = condition_issues(rule);
    if first.len() > 0 {
        assert(all[0] == first[0]);
        assert(all.contains(first[0]));
        lemma_is_issue(rule, first[0]);
    }
    if second.len() > 0 {
        assert(all[first.len() as int] == second[0]);
        assert(all.contains(second[0]));
        lemma_is_issue(rule, second[0]);
    }
    if industry_issues(rule).len() > 0 {
        assert(industry_issues(rule).contains(industry_issues(rule)[0]));
        lemma_is_issue(rule, industry_issues(rule)[0]);
        assert(industry_names() =~= seq!["建筑工程"@, "政府采购"@, "IT"@, "通用"@]);
    }
}

/// The issues of a rule come in the order of what is looked at: the law, the article, the patterns,
/// the conditions, the industry; each of the five at most once, but for the patterns, one by one, and
/// the conditions, which are two.
pub proof fn issues_come_in_their_order(rule: Rule)
    ensures
        issues_of(rule) == law_issues(rule) + article_issues(rule) + regex_issues(
            rule,
            refusals(rule),
            rule.patterns@.len() as int,
        ) + condition_issues(rule) + industry_issues(rule),
        law_issues(rule).len() <= 1,
        article_issues(rule).len() <= 1,
        condition_issues(rule).len() <= 2,
        industry_issues(rule).len() <= 1,
{
}

/// Issues are modelled one by one, each by all of its texts.
pub proof fn issues_are_their_texts(list: Seq<ValidationIssue>, i: int)
    requires
        0 <= i < list.len(),
    ensures
        issue_views(list).len() == list.len(),
        issue_views(list)[i].rule_id == list[i].rule_id@,
        issue_views(list)[i].field == list[i].field@,
        issue_views(list)[i].message == list[i].message@,
{
}

/// Optional texts are modelled one by one.
pub proof fn optional_texts_are_their_texts(list: Seq<Option<String>>, i: int)
    requires
        0 <= i < list.len(),
    ensures
        optional_texts(list).len() == list.len(),
        list[i] is None <==> optional_texts(list)[i] is None,
        list[i] matches Some(s) ==> optional_texts(list)[i] == Some(s@),
{
}

} // verus!
