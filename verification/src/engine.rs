//! The rule engine.
//!
//! - A regular expression is compiled when the rule is loaded. One that does not compile is
//!   skipped: it never hits, and the rest of its rule works as before.
//! - A keyword pattern hits if one of its words stands in the clause, or, with the operator
//!   `AND`, if all of them do. With the mode `absence` it hits if none of its words stands
//!   anywhere in the document.
//! - Where all patterns of a rule must hit, that goes for those of absence too: the rule finds
//!   nothing while one of their words stands in the document.
//! - A field comparison looks at the metrics of the document. One that cannot be worked out never
//!   hits.
//! - Conditions: exclusion comes before the document type, and that before the trigger.

use crate::escape::normalize_regex;
use crate::operand::{compare, describe_compare, field_comparison, Comparison, Measure};
use crate::outside::{compile_regex, is_match};
use crate::schema::{
    CheckMode, Clause, ParsedDocument, Pattern, PatternType, Rule, RuleMatch,
};
use crate::text::{contains, has_all, has_any, same_text, take_chars};
use regex::Regex;
use vstd::prelude::*;

verus! {

// ── Patterns ──

/// The words of a keyword pattern.
pub open spec fn words_of(p: Pattern) -> Seq<Seq<char>> {
    match p.value {
        Some(v) => v.list(),
        None => Seq::empty(),
    }
}

/// The words of a keyword pattern.
fn words(p: &Pattern) -> (list: Vec<String>)
    ensures
        crate::text::texts(list@) == words_of(*p),
{
    match &p.value {
        Some(v) => v.as_list(),
        None => {
            let list: Vec<String> = Vec::new();
            assert(crate::text::texts(list@) == Seq::<Seq<char>>::empty());
            list
        },
    }
}

/// Whether an optional string is there and reads `word`.
pub open spec fn reads(text: Option<String>, word: Seq<char>) -> bool {
    text matches Some(s) && s@ == word
}

/// Whether an optional string is there and reads `word`.
fn is_text(text: &Option<String>, word: &str) -> (hit: bool)
    ensures
        hit == reads(*text, word@),
{
    match text {
        Some(s) => same_text(s.as_str(), word),
        None => false,
    }
}

/// Whether a pattern asks for words to be absent from the document.
pub open spec fn is_absence(p: Pattern) -> bool {
    p.ptype == PatternType::Keyword && reads(p.match_mode, "absence"@)
}

/// Whether a pattern is matched against the text of each clause.
pub open spec fn is_clause_pattern(p: Pattern) -> bool {
    p.ptype == PatternType::Regex || (p.ptype == PatternType::Keyword && !is_absence(p))
}

/// The regular expression of a pattern, as it is compiled.
pub open spec fn regex_of(p: Pattern) -> Option<Seq<char>> {
    match p.value {
        Some(v) => match v.single() {
            Some(s) => Some(crate::escape::normalized(s)),
            None => None,
        },
        None => None,
    }
}

/// Whether a pattern is a regular expression that compiles.
pub open spec fn is_working_regex(p: Pattern) -> bool {
    p.ptype == PatternType::Regex && regex_of(p) is Some && crate::outside::refusal(
        regex_of(p)->0,
    ) is None
}

/// Whether the regular expression of a pattern works and matches a text.
pub open spec fn regex_hits(p: Pattern, text: Seq<char>) -> bool {
    is_working_regex(p) && crate::outside::regex_matches(regex_of(p)->0, text)
}

/// Whether a pattern hits the text of a clause, given whether its regular expression matches.
pub open spec fn pattern_hits_given(p: Pattern, matched: bool, text: Seq<char>) -> bool {
    match p.ptype {
        PatternType::Regex => matched,
        PatternType::Keyword => !is_absence(p) && (if reads(p.operator, "AND"@) {
            crate::text::contains_all(text, words_of(p))
        } else {
            crate::text::contains_any(text, words_of(p))
        }),
        PatternType::FieldCompare => false,
    }
}

/// Whether a pattern hits the text of a clause.
pub open spec fn pattern_hits(p: Pattern, text: Seq<char>) -> bool {
    pattern_hits_given(p, regex_hits(p, text), text)
}

/// Whether a text rule hits a clause with that text, by the patterns that are matched against
/// clauses, given which of its regular expressions match, one place for each pattern.
pub open spec fn clause_hits_given(rule: Rule, matched: Seq<bool>, text: Seq<char>) -> bool {
    match rule.check {
        CheckMode::AnyMatch => exists|i: int|
            0 <= i < rule.patterns@.len() && is_clause_pattern(#[trigger] rule.patterns@[i])
                && pattern_hits_given(rule.patterns@[i], matched[i], text),
        CheckMode::AllMatch => {
            &&& exists|i: int|
                0 <= i < rule.patterns@.len() && is_clause_pattern(#[trigger] rule.patterns@[i])
            &&& forall|i: int|
                0 <= i < rule.patterns@.len() && is_clause_pattern(#[trigger] rule.patterns@[i])
                    ==> pattern_hits_given(rule.patterns@[i], matched[i], text)
        },
    }
}

/// Which of the regular expressions of a rule match a text.
pub open spec fn regexes_matched(rule: Rule, text: Seq<char>) -> Seq<bool> {
    rule.patterns@.map_values(|p: Pattern| regex_hits(p, text))
}

/// Whether a text rule hits a clause with that text, by the patterns that are matched against
/// clauses.
pub open spec fn clause_hits(rule: Rule, text: Seq<char>) -> bool {
    clause_hits_given(rule, regexes_matched(rule, text), text)
}

/// Whether none of the words of a pattern stands in any clause.
pub open spec fn words_are_absent(p: Pattern, clauses: Seq<crate::schema::ClauseView>) -> bool {
    forall|c: int|
        0 <= c < clauses.len() ==> !crate::text::contains_any(
            (#[trigger] clauses[c]).text,
            words_of(p),
        )
}

/// Whether one of the patterns of a rule finds its words absent from the document.
pub open spec fn absence_hits(rule: Rule, clauses: Seq<crate::schema::ClauseView>) -> bool {
    exists|i: int|
        0 <= i < rule.patterns@.len() && is_absence(#[trigger] rule.patterns@[i])
            && words_are_absent(rule.patterns@[i], clauses)
}

// ── Conditions ──

/// Whether one of the words stands in one of the clauses.
pub open spec fn some_clause_has(
    clauses: Seq<crate::schema::ClauseView>,
    words: Seq<Seq<char>>,
) -> bool {
    exists|c: int|
        0 <= c < clauses.len() && crate::text::contains_any((#[trigger] clauses[c]).text, words)
}

/// The type of the project is told by the first clause.
pub open spec fn project_text(doc: crate::schema::DocumentView) -> Seq<char> {
    if doc.clauses.len() > 0 {
        doc.clauses[0].text
    } else {
        Seq::empty()
    }
}

/// Whether a rule is kept from applying to a document.
pub open spec fn is_excluded(rule: Rule, doc: crate::schema::DocumentView) -> bool {
    match rule.conditions.exclude {
        Some(exclude) => {
            ||| exclude.project_types matches Some(types) && crate::text::contains_any(
                project_text(doc),
                crate::text::texts(types@),
            )
            ||| exclude.clause_keywords matches Some(words) && some_clause_has(
                doc.clauses,
                crate::text::texts(words@),
            )
        },
        None => false,
    }
}

/// Whether a document is of the type that a rule asks for.
pub open spec fn is_of_type(rule: Rule, doc: crate::schema::DocumentView) -> bool {
    rule.conditions.document_type matches Some(kind) ==> crate::text::contains_text(
        doc.file_name,
        kind@,
    )
}

/// Whether a document has a chapter that triggers a rule.
pub open spec fn is_triggered(rule: Rule, doc: crate::schema::DocumentView) -> bool {
    match rule.conditions.trigger {
        Some(trigger) => match trigger.chapter_keywords {
            Some(words) => exists|c: int|
                0 <= c < doc.chapters.len() && crate::text::contains_any(
                    #[trigger] doc.chapters[c],
                    crate::text::texts(words@),
                ),
            None => true,
        },
        None => true,
    }
}

/// Whether a rule applies to a document.
pub open spec fn applies(rule: Rule, doc: crate::schema::DocumentView) -> bool {
    !is_excluded(rule, doc) && is_of_type(rule, doc) && is_triggered(rule, doc)
}

/// Whether one of the words stands in one of the clauses.
fn any_clause_has(clauses: &Vec<Clause>, words: &Vec<String>) -> (hit: bool)
    ensures
        hit == some_clause_has(
            clauses@.map_values(|c: Clause| c@),
            crate::text::texts(words@),
        ),
{
    let ghost models = clauses@.map_values(|c: Clause| c@);
    let ghost list = crate::text::texts(words@);
    let mut i: usize = 0;
    while i < clauses.len()
        invariant
            i <= clauses.len(),
            models == clauses@.map_values(|c: Clause| c@),
            list == crate::text::texts(words@),
            forall|c: int|
                0 <= c < i ==> !crate::text::contains_any((#[trigger] models[c]).text, list),
        decreases clauses.len() - i,
    {
        assert(models[i as int].text == clauses@[i as int].text@);
        if has_any(clauses[i].text.as_str(), words) {
            return true;
        }
        i = i + 1;
    }
    false
}

/// Whether a document has a chapter that triggers a rule.
fn has_trigger(rule: &Rule, doc: &ParsedDocument) -> (hit: bool)
    ensures
        hit == is_triggered(*rule, doc@),
{
    if let Some(trigger) = &rule.conditions.trigger {
        if let Some(words) = &trigger.chapter_keywords {
            let ghost chapters = doc@.chapters;
            let ghost list = crate::text::texts(words@);
            let mut i: usize = 0;
            while i < doc.chapters.len()
                invariant
                    i <= doc.chapters.len(),
                    chapters == doc@.chapters,
                    list == crate::text::texts(words@),
                    rule.conditions.trigger == Some(*trigger),
                    trigger.chapter_keywords == Some(*words),
                    forall|c: int|
                        0 <= c < i ==> !crate::text::contains_any(#[trigger] chapters[c], list),
                decreases doc.chapters.len() - i,
            {
                if has_any(doc.chapters[i].title.as_str(), words) {
                    assert(crate::text::contains_any(chapters[i as int], list));
                    return true;
                }
                i = i + 1;
            }
            return false;
        }
    }
    true
}

/// Whether a rule applies to a document.
pub fn check_conditions(rule: &Rule, doc: &ParsedDocument) -> (hit: bool)
    ensures
        hit == applies(*rule, doc@),
{
    if let Some(exclude) = &rule.conditions.exclude {
        if let Some(types) = &exclude.project_types {
            let project = extract_project_type(doc);
            if has_any(project.as_str(), types) {
                return false;
            }
        }
        if let Some(words) = &exclude.clause_keywords {
            if any_clause_has(&doc.clauses, words) {
                return false;
            }
        }
    }
    if let Some(kind) = &rule.conditions.document_type {
        if !contains(doc.file_name.as_str(), kind.as_str()) {
            return false;
        }
    }
    has_trigger(rule, doc)
}

/// The type of the project is told by the first clause.
pub fn extract_project_type(doc: &ParsedDocument) -> (project: String)
    ensures
        project@ == project_text(doc@),
{
    if doc.clauses.len() > 0 {
        doc.clauses[0].text.clone()
    } else {
        String::new()
    }
}

// ── Findings ──

/// The finding of a rule at a clause with that text. It shows at most 120 characters.
pub open spec fn finding(
    rule: Rule,
    clause_id: Seq<char>,
    text: Seq<char>,
) -> crate::schema::RuleMatchView {
    crate::schema::RuleMatchView {
        rule_id: rule.id@,
        clause_id,
        severity: rule.severity.name(),
        category: rule.category@,
        suggestion: rule.suggestion@,
        law_ref: match rule.law_ref {
            Some(reference) => reference@,
            None => "《"@ + rule.source.law@ + "》"@ + rule.source.article@,
        },
        matched_text: crate::text::first_chars(text, 120),
    }
}

/// The finding of a rule at a clause with that text.
pub fn make_match(rule: &Rule, clause_id: &str, matched_text: &str) -> (m: RuleMatch)
    ensures
        m@ == finding(*rule, clause_id@, matched_text@),
{
    let law_ref = match &rule.law_ref {
        Some(reference) => reference.clone(),
        None => {
            let mut text = "《".to_owned();
            text.append(rule.source.law.as_str());
            text.append("》");
            text.append(rule.source.article.as_str());
            text
        },
    };
    RuleMatch {
        rule_id: rule.id.clone(),
        clause_id: clause_id.to_owned(),
        severity: rule.severity.as_str().to_owned(),
        category: rule.category.clone(),
        suggestion: rule.suggestion.clone(),
        law_ref,
        matched_text: take_chars(matched_text, 120),
    }
}

/// Whether a rule has a pattern that asks for words to be absent.
pub open spec fn has_absence(rule: Rule) -> bool {
    exists|i: int| 0 <= i < rule.patterns@.len() && is_absence(#[trigger] rule.patterns@[i])
}

/// Whether a rule has a pattern that is matched against clauses.
pub open spec fn has_clause_pattern(rule: Rule) -> bool {
    exists|i: int| 0 <= i < rule.patterns@.len() && is_clause_pattern(#[trigger] rule.patterns@[i])
}

/// Whether each pattern of a rule that asks for words to be absent finds them absent.
pub open spec fn absences_hold(rule: Rule, clauses: Seq<crate::schema::ClauseView>) -> bool {
    forall|i: int|
        0 <= i < rule.patterns@.len() && is_absence(#[trigger] rule.patterns@[i])
            ==> words_are_absent(rule.patterns@[i], clauses)
}

/// Whether a text rule hits the document as a whole: where one hit is enough, by one absence; where
/// all patterns must hit, by nothing but absences.
pub open spec fn document_hits(rule: Rule, clauses: Seq<crate::schema::ClauseView>) -> bool {
    match rule.check {
        CheckMode::AnyMatch => absence_hits(rule, clauses),
        CheckMode::AllMatch => has_absence(rule) && !has_clause_pattern(rule) && absences_hold(
            rule,
            clauses,
        ),
    }
}

/// The findings of a text rule: one for the whole document where the rule hits that; none where
/// all patterns must hit and words that must be absent are not; otherwise one for each clause that
/// the rule hits.
pub open spec fn text_findings(rule: Rule, doc: crate::schema::DocumentView) -> Seq<
    crate::schema::RuleMatchView,
> {
    if document_hits(rule, doc.clauses) {
        seq![finding(rule, "<document>"@, "（目标章节缺少要求的内容）"@)]
    } else if rule.check == CheckMode::AllMatch && !absences_hold(rule, doc.clauses) {
        Seq::empty()
    } else {
        clause_findings(rule, doc.clauses)
    }
}

/// One finding for each clause that a text rule hits, in the order of the clauses.
pub open spec fn clause_findings(rule: Rule, clauses: Seq<crate::schema::ClauseView>) -> Seq<
    crate::schema::RuleMatchView,
> {
    clauses.filter(|c: crate::schema::ClauseView| clause_hits(rule, c.text)).map_values(
        |c: crate::schema::ClauseView| finding(rule, c.id, c.text),
    )
}

/// Whether a rule has a field pattern.
pub open spec fn has_field(rule: Rule) -> bool {
    exists|i: int|
        0 <= i < rule.patterns@.len() && (#[trigger] rule.patterns@[i]).ptype
            == PatternType::FieldCompare
}

/// The first field pattern of a list.
pub open spec fn first_field(patterns: Seq<Pattern>) -> Pattern
    decreases patterns.len(),
{
    if patterns.len() <= 1 || patterns[0].ptype == PatternType::FieldCompare {
        patterns[0]
    } else {
        first_field(patterns.drop_first())
    }
}

/// Whether the `i`-th pattern of a rule is a comparison that holds, by what was measured.
pub open spec fn field_hits(
    rule: Rule,
    i: int,
    metrics: Seq<crate::schema::MetricView>,
    measures: Seq<Option<Measure>>,
) -> bool {
    match crate::operand::comparison_of(rule.patterns@[i], metrics) {
        Some(c) => i < measures.len() && (measures[i] matches Some(m) && crate::operand::holds(
            c.op,
            m,
        )),
        None => false,
    }
}

/// Whether a field rule hits, given what was measured of its comparisons.
pub open spec fn field_rule_hits(
    rule: Rule,
    metrics: Seq<crate::schema::MetricView>,
    measures: Seq<Option<Measure>>,
) -> bool {
    match rule.check {
        CheckMode::AnyMatch => exists|i: int|
            0 <= i < rule.patterns@.len() && (#[trigger] rule.patterns@[i]).ptype
                == PatternType::FieldCompare && field_hits(rule, i, metrics, measures),
        CheckMode::AllMatch => has_field(rule) && forall|i: int|
            0 <= i < rule.patterns@.len() && (#[trigger] rule.patterns@[i]).ptype
                == PatternType::FieldCompare ==> field_hits(rule, i, metrics, measures),
    }
}

/// The findings of a field rule: at most one, which shows the first comparison.
pub open spec fn field_findings(
    rule: Rule,
    doc: crate::schema::DocumentView,
    measures: Seq<Option<Measure>>,
) -> Seq<crate::schema::RuleMatchView> {
    if field_rule_hits(rule, doc.metrics, measures) {
        seq![
            finding(
                rule,
                "<metrics>"@,
                crate::operand::comparison_text(first_field(rule.patterns@)),
            ),
        ]
    } else {
        Seq::empty()
    }
}

/// The findings of a rule in a document.
pub open spec fn rule_findings(
    rule: Rule,
    doc: crate::schema::DocumentView,
    measures: Seq<Option<Measure>>,
) -> Seq<crate::schema::RuleMatchView> {
    if !applies(rule, doc) {
        Seq::empty()
    } else if has_field(rule) {
        field_findings(rule, doc, measures)
    } else {
        text_findings(rule, doc)
    }
}

/// What was measured for the rule at place `i`.
pub open spec fn row(measures: Seq<Seq<Option<Measure>>>, i: int) -> Seq<
    Option<Measure>,
> {
    if 0 <= i < measures.len() {
        measures[i]
    } else {
        Seq::empty()
    }
}

/// The findings of a list of rules, rule by rule.
pub open spec fn all_findings(
    rules: Seq<Rule>,
    doc: crate::schema::DocumentView,
    measures: Seq<Seq<Option<Measure>>>,
) -> Seq<crate::schema::RuleMatchView>
    decreases rules.len(),
{
    if rules.len() == 0 {
        Seq::empty()
    } else {
        all_findings(rules.drop_last(), doc, measures) + rule_findings(
            rules.last(),
            doc,
            row(measures, rules.len() - 1),
        )
    }
}

/// The place of a severity, by its name, in the order of findings.
pub open spec fn severity_order(name: Seq<char>) -> u8 {
    if name == "critical"@ {
        0
    } else if name == "high"@ {
        1
    } else if name == "warning"@ || name == "medium"@ {
        2
    } else {
        3
    }
}

/// The findings of one place in the order, as they come.
pub open spec fn of_order(list: Seq<crate::schema::RuleMatchView>, order: u8) -> Seq<
    crate::schema::RuleMatchView,
> {
    list.filter(|m: crate::schema::RuleMatchView| severity_order(m.severity) == order)
}

/// Findings with the most severe first; those of one severity stay in the order they came in.
pub open spec fn by_severity(list: Seq<crate::schema::RuleMatchView>) -> Seq<
    crate::schema::RuleMatchView,
> {
    of_order(list, 0) + of_order(list, 1) + of_order(list, 2) + of_order(list, 3)
}

/// The place of a severity, by its name, in the order of findings.
pub fn severity_rank(name: &str) -> (rank: u8)
    ensures
        rank == severity_order(name@),
{
    if same_text(name, "critical") {
        0
    } else if same_text(name, "high") {
        1
    } else if same_text(name, "warning") || same_text(name, "medium") {
        2
    } else {
        3
    }
}

// ── Compiled rules ──

/// A rule with its regular expressions. The one at place `i` is that of the pattern at place `i`;
/// a pattern without a working regular expression has `None` there.
struct CompiledRule {
    rule: Rule,
    regexes: Vec<Option<Regex>>,
}

/// Whether a compiled regular expression stands for a pattern.
spec fn stands_for(regex: Option<Regex>, p: Pattern) -> bool {
    match regex {
        Some(re) => is_working_regex(p) && regex_of(p) == Some(crate::outside::regex_source(re)),
        None => !is_working_regex(p),
    }
}

impl CompiledRule {
    /// Each pattern has its regular expression.
    spec fn is_aligned(self) -> bool {
        &&& self.regexes@.len() == self.rule.patterns@.len()
        &&& forall|i: int|
            0 <= i < self.regexes@.len() ==> stands_for(
                #[trigger] self.regexes@[i],
                self.rule.patterns@[i],
            )
    }
}

/// The regular expression of a pattern, if it is one that compiles.
fn compile_pattern(p: &Pattern) -> (regex: Option<Regex>)
    ensures
        stands_for(regex, *p),
{
    if p.ptype == PatternType::Regex {
        if let Some(value) = &p.value {
            if let Some(source) = value.as_single() {
                let normalized = normalize_regex(source.as_str());
                return match compile_regex(normalized.as_str()) {
                    Ok(re) => Some(re),
                    Err(_) => None,
                };
            }
        }
    }
    None
}

/// Compiles the regular expressions of a rule.
fn compile_rule(rule: Rule) -> (compiled: CompiledRule)
    ensures
        compiled.rule == rule,
        compiled.is_aligned(),
{
    let mut regexes: Vec<Option<Regex>> = Vec::new();
    let mut i: usize = 0;
    while i < rule.patterns.len()
        invariant
            i <= rule.patterns.len(),
            regexes@.len() == i,
            forall|k: int|
                0 <= k < i ==> stands_for(#[trigger] regexes@[k], rule.patterns@[k]),
        decreases rule.patterns.len() - i,
    {
        let regex = compile_pattern(&rule.patterns[i]);
        regexes.push(regex);
        i = i + 1;
    }
    CompiledRule { rule, regexes }
}

/// Whether a pattern hits the text of a clause, given whether its regular expression matches.
pub fn text_pattern_hit(p: &Pattern, matched: bool, text: &str) -> (hit: bool)
    ensures
        hit == pattern_hits_given(*p, matched, text@),
{
    match p.ptype {
        PatternType::Regex => matched,
        PatternType::Keyword => {
            if is_text(&p.match_mode, "absence") {
                return false;
            }
            let list = words(p);
            if is_text(&p.operator, "AND") {
                has_all(text, &list)
            } else {
                has_any(text, &list)
            }
        },
        PatternType::FieldCompare => false,
    }
}

/// Whether a pattern is matched against the text of each clause.
fn looks_at_clauses(p: &Pattern) -> (hit: bool)
    ensures
        hit == is_clause_pattern(*p),
{
    p.ptype == PatternType::Regex || (p.ptype == PatternType::Keyword && !is_text(
        &p.match_mode,
        "absence",
    ))
}

/// Whether a text rule hits a clause with that text, by the patterns that are matched against
/// clauses, given which of its regular expressions match, one place for each pattern.
pub fn clause_fires(rule: &Rule, matched: &Vec<bool>, text: &str) -> (hit: bool)
    requires
        matched@.len() == rule.patterns@.len(),
    ensures
        hit == clause_hits_given(*rule, matched@, text@),
{
    let ghost patterns = rule.patterns@;
    let mut seen = false;
    let mut any = false;
    let mut all = true;
    let mut i: usize = 0;
    while i < rule.patterns.len()
        invariant
            i <= rule.patterns.len(),
            patterns == rule.patterns@,
            matched@.len() == patterns.len(),
            seen == exists|k: int| 0 <= k < i && is_clause_pattern(#[trigger] patterns[k]),
            any == exists|k: int|
                0 <= k < i && is_clause_pattern(#[trigger] patterns[k]) && pattern_hits_given(
                    patterns[k],
                    matched@[k],
                    text@,
                ),
            all == forall|k: int|
                0 <= k < i && is_clause_pattern(#[trigger] patterns[k]) ==> pattern_hits_given(
                    patterns[k],
                    matched@[k],
                    text@,
                ),
        decreases rule.patterns.len() - i,
    {
        let p = &rule.patterns[i];
        assert(*p == patterns[i as int]);
        if looks_at_clauses(p) {
            seen = true;
            if text_pattern_hit(p, matched[i], text) {
                any = true;
            } else {
                all = false;
            }
        }
        i = i + 1;
    }
    match rule.check {
        CheckMode::AnyMatch => any,
        CheckMode::AllMatch => seen && all,
    }
}

/// Which of the regular expressions of a rule match a text.
fn match_regexes(compiled: &CompiledRule, text: &str) -> (matched: Vec<bool>)
    requires
        compiled.is_aligned(),
    ensures
        matched@ == regexes_matched(compiled.rule, text@),
{
    let mut matched: Vec<bool> = Vec::new();
    let mut i: usize = 0;
    while i < compiled.regexes.len()
        invariant
            i <= compiled.regexes.len(),
            compiled.is_aligned(),
            matched@.len() == i,
            forall|k: int|
                0 <= k < i ==> #[trigger] matched@[k] == regex_hits(
                    compiled.rule.patterns@[k],
                    text@,
                ),
        decreases compiled.regexes.len() - i,
    {
        assert(stands_for(compiled.regexes@[i as int], compiled.rule.patterns@[i as int]));
        let hit = match &compiled.regexes[i] {
            Some(re) => is_match(re, text),
            None => false,
        };
        matched.push(hit);
        i = i + 1;
    }
    assert(matched@ == regexes_matched(compiled.rule, text@));
    matched
}

/// Whether a text rule hits a clause with that text.
fn clause_hit(compiled: &CompiledRule, text: &str) -> (hit: bool)
    requires
        compiled.is_aligned(),
    ensures
        hit == clause_hits(compiled.rule, text@),
{
    let matched = match_regexes(compiled, text);
    clause_fires(&compiled.rule, &matched, text)
}

/// Whether one of the patterns of a rule finds its words absent from the document.
fn absence_hit(rule: &Rule, clauses: &Vec<Clause>) -> (hit: bool)
    ensures
        hit == absence_hits(*rule, clauses@.map_values(|c: Clause| c@)),
{
    let ghost models = clauses@.map_values(|c: Clause| c@);
    let mut i: usize = 0;
    while i < rule.patterns.len()
        invariant
            i <= rule.patterns.len(),
            models == clauses@.map_values(|c: Clause| c@),
            forall|k: int|
                0 <= k < i && is_absence(#[trigger] rule.patterns@[k]) ==> !words_are_absent(
                    rule.patterns@[k],
                    models,
                ),
        decreases rule.patterns.len() - i,
    {
        let p = &rule.patterns[i];
        if p.ptype == PatternType::Keyword && is_text(&p.match_mode, "absence") {
            let list = words(p);
            if !any_clause_has(clauses, &list) {
                assert(words_are_absent(rule.patterns@[i as int], models));
                return true;
            }
        }
        i = i + 1;
    }
    false
}

/// Whether each pattern of a rule that asks for words to be absent finds them absent.
fn all_absent(rule: &Rule, clauses: &Vec<Clause>) -> (hold: bool)
    ensures
        hold == absences_hold(*rule, clauses@.map_values(|c: Clause| c@)),
{
    let ghost models = clauses@.map_values(|c: Clause| c@);
    let mut i: usize = 0;
    while i < rule.patterns.len()
        invariant
            i <= rule.patterns.len(),
            models == clauses@.map_values(|c: Clause| c@),
            forall|k: int|
                0 <= k < i && is_absence(#[trigger] rule.patterns@[k]) ==> words_are_absent(
                    rule.patterns@[k],
                    models,
                ),
        decreases rule.patterns.len() - i,
    {
        let p = &rule.patterns[i];
        if p.ptype == PatternType::Keyword && is_text(&p.match_mode, "absence") {
            let list = words(p);
            if any_clause_has(clauses, &list) {
                assert(is_absence(rule.patterns@[i as int]));
                assert(!words_are_absent(rule.patterns@[i as int], models));
                return false;
            }
        }
        i = i + 1;
    }
    true
}

/// Whether a rule has patterns that ask for absence, and none that is matched against clauses.
fn asks_only_for_absence(rule: &Rule) -> (hit: bool)
    ensures
        hit == (has_absence(*rule) && !has_clause_pattern(*rule)),
{
    let mut seen = false;
    let mut i: usize = 0;
    while i < rule.patterns.len()
        invariant
            i <= rule.patterns.len(),
            seen == exists|k: int| 0 <= k < i && is_absence(#[trigger] rule.patterns@[k]),
            forall|k: int| 0 <= k < i ==> !is_clause_pattern(#[trigger] rule.patterns@[k]),
        decreases rule.patterns.len() - i,
    {
        let p = &rule.patterns[i];
        assert(*p == rule.patterns@[i as int]);
        if looks_at_clauses(p) {
            assert(is_clause_pattern(rule.patterns@[i as int]));
            return false;
        }
        if p.ptype == PatternType::Keyword {
            assert(is_absence(rule.patterns@[i as int]));
            seen = true;
        }
        i = i + 1;
    }
    seen
}

/// Whether a text rule hits the document as a whole.
fn document_hit(rule: &Rule, clauses: &Vec<Clause>) -> (hit: bool)
    ensures
        hit == document_hits(*rule, clauses@.map_values(|c: Clause| c@)),
{
    match rule.check {
        CheckMode::AnyMatch => absence_hit(rule, clauses),
        CheckMode::AllMatch => asks_only_for_absence(rule) && all_absent(rule, clauses),
    }
}

/// The findings of a text rule.
fn evaluate_text_rule(compiled: &CompiledRule, doc: &ParsedDocument) -> (matches: Vec<RuleMatch>)
    requires
        compiled.is_aligned(),
    ensures
        crate::schema::findings(matches@) == text_findings(compiled.rule, doc@),
{
    let mut matches: Vec<RuleMatch> = Vec::new();
    if document_hit(&compiled.rule, &doc.clauses) {
        let m = make_match(&compiled.rule, "<document>", "（目标章节缺少要求的内容）");
        matches.push(m);
        assert(crate::schema::findings(matches@) == text_findings(compiled.rule, doc@));
        return matches;
    }
    if compiled.rule.check == CheckMode::AllMatch && !all_absent(&compiled.rule, &doc.clauses) {
        assert(crate::schema::findings(matches@) == text_findings(compiled.rule, doc@));
        return matches;
    }
    let ghost rule = compiled.rule;
    let ghost hits = |c: crate::schema::ClauseView| clause_hits(rule, c.text);
    let ghost show = |c: crate::schema::ClauseView| finding(rule, c.id, c.text);
    let ghost clauses = doc@.clauses;
    assert(crate::schema::findings(matches@) == clauses.take(0).filter(hits).map_values(show)) by {
        reveal(Seq::filter);
    }
    let mut i: usize = 0;
    while i < doc.clauses.len()
        invariant
            i <= doc.clauses.len(),
            compiled.is_aligned(),
            rule == compiled.rule,
            clauses == doc@.clauses,
            hits == (|c: crate::schema::ClauseView| clause_hits(rule, c.text)),
            show == (|c: crate::schema::ClauseView| finding(rule, c.id, c.text)),
            crate::schema::findings(matches@) == clauses.take(i as int).filter(hits).map_values(
                show,
            ),
        decreases doc.clauses.len() - i,
    {
        let clause = &doc.clauses[i];
        assert(clauses[i as int] == clause@);
        let ghost before = matches@;
        let ghost kept = clauses.take(i as int).filter(hits);
        proof {
            crate::lists::lemma_filter_step(clauses, i as int, hits);
        }
        if clause_hit(compiled, clause.text.as_str()) {
            let m = make_match(&compiled.rule, clause.id.as_str(), clause.text.as_str());
            matches.push(m);
            assert(crate::schema::findings(matches@) == crate::schema::findings(before).push(m@));
            assert(kept.push(clause@).map_values(show) == kept.map_values(show).push(
                show(clause@),
            ));
        }
        i = i + 1;
    }
    assert(clauses.take(i as int) == clauses);
    matches
}

/// Whether a rule has a field pattern.
fn asks_for_field(rule: &Rule) -> (hit: bool)
    ensures
        hit == has_field(*rule),
{
    let mut i: usize = 0;
    while i < rule.patterns.len()
        invariant
            i <= rule.patterns.len(),
            forall|k: int|
                0 <= k < i ==> (#[trigger] rule.patterns@[k]).ptype != PatternType::FieldCompare,
        decreases rule.patterns.len() - i,
    {
        if rule.patterns[i].ptype == PatternType::FieldCompare {
            assert(rule.patterns@[i as int].ptype == PatternType::FieldCompare);
            return true;
        }
        i = i + 1;
    }
    false
}

/// Whether the pattern at place `i` is a comparison that holds, by what was measured.
fn field_compare_hit(
    rule: &Rule,
    i: usize,
    doc: &ParsedDocument,
    measures: &Vec<Option<Measure>>,
) -> (hit: bool)
    requires
        i < rule.patterns@.len(),
    ensures
        hit == field_hits(*rule, i as int, doc@.metrics, measures@),
{
    match field_comparison(&rule.patterns[i], &doc.metrics) {
        Some(c) => {
            if i < measures.len() {
                match measures[i] {
                    Some(m) => compare(c.op, m),
                    None => false,
                }
            } else {
                false
            }
        },
        None => false,
    }
}

/// Passing over a pattern that is no field pattern does not change which is the first.
proof fn lemma_first_field(patterns: Seq<Pattern>, i: int)
    requires
        0 <= i < patterns.len(),
        patterns[i].ptype == PatternType::FieldCompare,
        forall|k: int|
            0 <= k < i ==> (#[trigger] patterns[k]).ptype != PatternType::FieldCompare,
    ensures
        first_field(patterns) == patterns[i],
    decreases i,
{
    if i > 0 {
        assert(patterns[0].ptype != PatternType::FieldCompare);
        assert(patterns.drop_first()[i - 1] == patterns[i]);
        assert forall|k: int| 0 <= k < i - 1 implies (
        #[trigger] patterns.drop_first()[k]).ptype != PatternType::FieldCompare by {
            assert(patterns.drop_first()[k] == patterns[k + 1]);
        }
        lemma_first_field(patterns.drop_first(), i - 1);
    }
}

/// The findings of a field rule.
fn evaluate_field_rule(
    rule: &Rule,
    doc: &ParsedDocument,
    measures: &Vec<Option<Measure>>,
) -> (matches: Vec<RuleMatch>)
    requires
        has_field(*rule),
    ensures
        crate::schema::findings(matches@) == field_findings(*rule, doc@, measures@),
{
    let ghost patterns = rule.patterns@;
    let ghost metrics = doc@.metrics;
    let mut first: Option<usize> = None;
    let mut any = false;
    let mut all = true;
    let mut i: usize = 0;
    while i < rule.patterns.len()
        invariant
            i <= rule.patterns.len(),
            patterns == rule.patterns@,
            metrics == doc@.metrics,
            match first {
                Some(f) => f < i && patterns[f as int].ptype == PatternType::FieldCompare
                    && forall|k: int|
                    0 <= k < f ==> (#[trigger] patterns[k]).ptype != PatternType::FieldCompare,
                None => forall|k: int|
                    0 <= k < i ==> (#[trigger] patterns[k]).ptype != PatternType::FieldCompare,
            },
            any == exists|k: int|
                0 <= k < i && (#[trigger] patterns[k]).ptype == PatternType::FieldCompare
                    && field_hits(*rule, k, metrics, measures@),
            all == forall|k: int|
                0 <= k < i && (#[trigger] patterns[k]).ptype == PatternType::FieldCompare
                    ==> field_hits(*rule, k, metrics, measures@),
        decreases rule.patterns.len() - i,
    {
        assert(rule.patterns@[i as int] == patterns[i as int]);
        if rule.patterns[i].ptype == PatternType::FieldCompare {
            if first.is_none() {
                first = Some(i);
            }
            if field_compare_hit(rule, i, doc, measures) {
                any = true;
            } else {
                all = false;
            }
        }
        i = i + 1;
    }
    let triggered = match rule.check {
        CheckMode::AnyMatch => any,
        CheckMode::AllMatch => all,
    };
    assert(triggered == field_rule_hits(*rule, metrics, measures@));
    let mut matches: Vec<RuleMatch> = Vec::new();
    if triggered {
        if let Some(f) = first {
            proof {
                lemma_first_field(patterns, f as int);
            }
            let evidence = describe_compare(&rule.patterns[f]);
            let m = make_match(rule, "<metrics>", evidence.as_str());
            matches.push(m);
        }
    }
    assert(crate::schema::findings(matches@) == field_findings(*rule, doc@, measures@));
    matches
}

/// The findings of a rule in a document.
fn evaluate_rule(
    compiled: &CompiledRule,
    doc: &ParsedDocument,
    measures: &Vec<Option<Measure>>,
) -> (matches: Vec<RuleMatch>)
    requires
        compiled.is_aligned(),
        applies(compiled.rule, doc@),
    ensures
        crate::schema::findings(matches@) == rule_findings(compiled.rule, doc@, measures@),
{
    if asks_for_field(&compiled.rule) {
        evaluate_field_rule(&compiled.rule, doc, measures)
    } else {
        evaluate_text_rule(compiled, doc)
    }
}

// ── Findings by severity ──

/// The findings of one place in the order all have that place.
proof fn lemma_of_order(list: Seq<crate::schema::RuleMatchView>, order: u8)
    ensures
        forall|i: int|
            0 <= i < of_order(list, order).len() ==> severity_order(
                (#[trigger] of_order(list, order)[i]).severity,
            ) == order,
{
    broadcast use vstd::seq_lib::group_filter_ensures;
}

/// The most severe findings come first.
pub proof fn findings_are_sorted(list: Seq<crate::schema::RuleMatchView>)
    ensures
        forall|i: int, j: int|
            0 <= i <= j < by_severity(list).len() ==> severity_order(
                (#[trigger] by_severity(list)[i]).severity,
            ) <= severity_order((#[trigger] by_severity(list)[j]).severity),
{
    lemma_of_order(list, 0);
    lemma_of_order(list, 1);
    lemma_of_order(list, 2);
    lemma_of_order(list, 3);
    let (a, b, c, d) = (of_order(list, 0), of_order(list, 1), of_order(list, 2), of_order(list, 3));
    let all = by_severity(list);
    assert forall|i: int| 0 <= i < all.len() implies severity_order(
        (#[trigger] all[i]).severity,
    ) == (if i < a.len() {
        0u8
    } else if i < a.len() + b.len() {
        1u8
    } else if i < a.len() + b.len() + c.len() {
        2u8
    } else {
        3u8
    }) by {
        if i < a.len() {
            assert(all[i] == a[i]);
        } else if i < a.len() + b.len() {
            assert(all[i] == b[i - a.len()]);
        } else if i < a.len() + b.len() + c.len() {
            assert(all[i] == c[i - a.len() - b.len()]);
        } else {
            assert(all[i] == d[i - a.len() - b.len() - c.len()]);
        }
    }
}

/// Sorting loses no finding and adds none.
pub proof fn sorting_keeps_the_findings(list: Seq<crate::schema::RuleMatchView>)
    ensures
        by_severity(list).to_multiset() == list.to_multiset(),
    decreases list.len(),
{
    let (a, b, c, d) = (of_order(list, 0), of_order(list, 1), of_order(list, 2), of_order(list, 3));
    vstd::seq_lib::lemma_multiset_commutative(a, b);
    vstd::seq_lib::lemma_multiset_commutative(a + b, c);
    vstd::seq_lib::lemma_multiset_commutative(a + b + c, d);
    reveal(Seq::filter);
    if list.len() > 0 {
        let rest = list.drop_last();
        sorting_keeps_the_findings(rest);
        let (e, f, g, h) = (
            of_order(rest, 0),
            of_order(rest, 1),
            of_order(rest, 2),
            of_order(rest, 3),
        );
        vstd::seq_lib::lemma_multiset_commutative(e, f);
        vstd::seq_lib::lemma_multiset_commutative(e + f, g);
        vstd::seq_lib::lemma_multiset_commutative(e + f + g, h);
        broadcast use vstd::seq_lib::group_to_multiset_ensures;

        assert(list == rest.push(list.last()));
        assert(by_severity(list).to_multiset() =~= rest.to_multiset().insert(list.last()));
    } else {
        assert(by_severity(list) =~= list);
    }
}

/// Findings of one severity stay in the order in which they were found.
pub proof fn sorting_is_stable(list: Seq<crate::schema::RuleMatchView>, order: u8)
    requires
        order <= 3,
    ensures
        of_order(by_severity(list), order) == of_order(list, order),
{
    let (a, b, c, d) = (of_order(list, 0), of_order(list, 1), of_order(list, 2), of_order(list, 3));
    let keep = |m: crate::schema::RuleMatchView| severity_order(m.severity) == order;
    Seq::filter_distributes_over_add(a, b, keep);
    Seq::filter_distributes_over_add(a + b, c, keep);
    Seq::filter_distributes_over_add(a + b + c, d, keep);
    lemma_of_order(list, 0);
    lemma_of_order(list, 1);
    lemma_of_order(list, 2);
    lemma_of_order(list, 3);
    if order == 0 {
        crate::lists::lemma_filter_keeps_all(a, keep);
    } else {
        a.lemma_all_neg_filter_empty(keep);
    }
    if order == 1 {
        crate::lists::lemma_filter_keeps_all(b, keep);
    } else {
        b.lemma_all_neg_filter_empty(keep);
    }
    if order == 2 {
        crate::lists::lemma_filter_keeps_all(c, keep);
    } else {
        c.lemma_all_neg_filter_empty(keep);
    }
    if order == 3 {
        crate::lists::lemma_filter_keeps_all(d, keep);
    } else {
        d.lemma_all_neg_filter_empty(keep);
    }
    assert(of_order(by_severity(list), order) =~= of_order(list, order));
}

/// Puts the most severe findings first; those of one severity stay in the order they came in.
fn sort_by_severity(matches: Vec<RuleMatch>) -> (sorted: Vec<RuleMatch>)
    ensures
        crate::schema::findings(sorted@) == by_severity(crate::schema::findings(matches@)),
{
    let ghost all = crate::schema::findings(matches@);
    let mut critical: Vec<RuleMatch> = Vec::new();
    let mut high: Vec<RuleMatch> = Vec::new();
    let mut medium: Vec<RuleMatch> = Vec::new();
    let mut low: Vec<RuleMatch> = Vec::new();
    proof {
        reveal(Seq::filter);
        assert(all.take(0) == Seq::<crate::schema::RuleMatchView>::empty());
    }
    for m in iter: matches
        invariant
            crate::schema::findings(iter.seq()) == all,
            crate::schema::findings(critical@) == of_order(all.take(iter.index() as int), 0),
            crate::schema::findings(high@) == of_order(all.take(iter.index() as int), 1),
            crate::schema::findings(medium@) == of_order(all.take(iter.index() as int), 2),
            crate::schema::findings(low@) == of_order(all.take(iter.index() as int), 3),
    {
        proof {
            lemma_place(all, iter.index() as int);
            lemma_pushed(critical@, m);
            lemma_pushed(high@, m);
            lemma_pushed(medium@, m);
            lemma_pushed(low@, m);
        }
        let rank = severity_rank(m.severity.as_str());
        if rank == 0 {
            critical.push(m);
        } else if rank == 1 {
            high.push(m);
        } else if rank == 2 {
            medium.push(m);
        } else {
            low.push(m);
        }
    }
    assert(all.take(all.len() as int) == all);
    critical.append(&mut high);
    critical.append(&mut medium);
    critical.append(&mut low);
    assert(crate::schema::findings(critical@) == by_severity(all));
    critical
}

/// One more finding takes its place in the order.
proof fn lemma_place(all: Seq<crate::schema::RuleMatchView>, i: int)
    requires
        0 <= i < all.len(),
    ensures
        forall|order: u8|
            #![trigger of_order(all.take(i + 1), order)]
            of_order(all.take(i + 1), order) == (if severity_order(all[i].severity) == order {
                of_order(all.take(i), order).push(all[i])
            } else {
                of_order(all.take(i), order)
            }),
{
    assert forall|order: u8|
        #![trigger of_order(all.take(i + 1), order)]
        of_order(all.take(i + 1), order) == (if severity_order(all[i].severity) == order {
            of_order(all.take(i), order).push(all[i])
        } else {
            of_order(all.take(i), order)
        }) by {
        crate::lists::lemma_filter_step(
            all,
            i,
            |m: crate::schema::RuleMatchView| severity_order(m.severity) == order,
        );
    }
}

/// The models of a list of findings with one more.
proof fn lemma_pushed(list: Seq<RuleMatch>, m: RuleMatch)
    ensures
        crate::schema::findings(list.push(m)) == crate::schema::findings(list).push(m@),
{
}

// ── The engine ──

/// The rule engine: the rules that are switched on, with their regular expressions.
pub struct RuleEngine {
    rules: Vec<CompiledRule>,
}

/// The rules of a list that are switched on.
pub open spec fn enabled_rules(rules: Seq<Rule>) -> Seq<Rule> {
    rules.filter(|r: Rule| r.enabled)
}

/// The first rule of a list with an id.
pub open spec fn rule_with_id(rules: Seq<Rule>, id: Seq<char>) -> Option<Rule>
    decreases rules.len(),
{
    if rules.len() == 0 {
        None
    } else if rules[0].id@ == id {
        Some(rules[0])
    } else {
        rule_with_id(rules.drop_first(), id)
    }
}

/// The comparisons of a rule, one place for each pattern.
pub open spec fn rule_comparisons(rule: Rule, metrics: Seq<crate::schema::MetricView>) -> Seq<
    Option<crate::operand::ComparisonView>,
> {
    rule.patterns@.map_values(
        |p: Pattern|
            if p.ptype == PatternType::FieldCompare {
                crate::operand::comparison_of(p, metrics)
            } else {
                None
            },
    )
}

/// The model of a row of comparisons.
pub open spec fn comparison_row(list: Seq<Option<Comparison>>) -> Seq<
    Option<crate::operand::ComparisonView>,
> {
    list.map_values(
        |c: Option<Comparison>|
            match c {
                Some(c) => Some(c@),
                None => None,
            },
    )
}

/// What was measured for a document, in rows.
pub open spec fn rows(measures: Seq<Vec<Option<Measure>>>) -> Seq<Seq<Option<Measure>>> {
    measures.map_values(|r: Vec<Option<Measure>>| r@)
}

/// The findings of a list of rules in a document, the most severe first.
pub open spec fn run_findings(
    rules: Seq<Rule>,
    doc: crate::schema::DocumentView,
    measures: Seq<Seq<Option<Measure>>>,
) -> Seq<crate::schema::RuleMatchView> {
    by_severity(all_findings(rules, doc, measures))
}

/// The comparisons of a rule, one place for each pattern.
fn comparisons_of(rule: &Rule, doc: &ParsedDocument) -> (list: Vec<Option<Comparison>>)
    ensures
        comparison_row(list@) == rule_comparisons(*rule, doc@.metrics),
{
    let mut list: Vec<Option<Comparison>> = Vec::new();
    let ghost expected = rule_comparisons(*rule, doc@.metrics);
    let mut i: usize = 0;
    while i < rule.patterns.len()
        invariant
            i <= rule.patterns.len(),
            list@.len() == i,
            expected == rule_comparisons(*rule, doc@.metrics),
            comparison_row(list@) == expected.take(i as int),
        decreases rule.patterns.len() - i,
    {
        let c = if rule.patterns[i].ptype == PatternType::FieldCompare {
            field_comparison(&rule.patterns[i], &doc.metrics)
        } else {
            None
        };
        let ghost before = list@;
        list.push(c);
        assert(comparison_row(list@) == comparison_row(before).push(
            match c {
                Some(c) => Some(c@),
                None => None,
            },
        ));
        assert(expected.take(i + 1) == expected.take(i as int).push(expected[i as int]));
        i = i + 1;
    }
    assert(expected.take(i as int) == expected);
    list
}

impl RuleEngine {
    /// Every rule has its regular expressions.
    #[verifier::type_invariant]
    spec fn well_formed(self) -> bool {
        forall|i: int| 0 <= i < self.rules@.len() ==> (#[trigger] self.rules@[i]).is_aligned()
    }

    /// The rules that the engine runs.
    pub closed spec fn loaded(self) -> Seq<Rule> {
        self.rules@.map_values(|c: CompiledRule| c.rule)
    }

    /// Makes an engine of the rules that are switched on.
    pub fn from_rules(rules: Vec<Rule>) -> (engine: RuleEngine)
        ensures
            engine.loaded() == enabled_rules(rules@),
    {
        let ghost all = rules@;
        let ghost on = |r: Rule| r.enabled;
        let mut compiled: Vec<CompiledRule> = Vec::new();
        assert(compiled@.map_values(|c: CompiledRule| c.rule) == all.take(0).filter(on)) by {
            reveal(Seq::filter);
        }
        for rule in iter: rules
            invariant
                iter.seq() == all,
                on == (|r: Rule| r.enabled),
                forall|i: int| 0 <= i < compiled@.len() ==> (#[trigger] compiled@[i]).is_aligned(),
                compiled@.map_values(|c: CompiledRule| c.rule) == all.take(
                    iter.index() as int,
                ).filter(on),
        {
            proof {
                crate::lists::lemma_filter_step(all, iter.index() as int, on);
            }
            if rule.enabled {
                let ghost before = compiled@;
                let c = compile_rule(rule);
                compiled.push(c);
                assert(compiled@.map_values(|c: CompiledRule| c.rule) == before.map_values(
                    |c: CompiledRule| c.rule,
                ).push(c.rule));
            }
        }
        assert(all.take(all.len() as int) == all);
        RuleEngine { rules: compiled }
    }

    /// How many rules the engine runs.
    pub fn rule_count(&self) -> (count: usize)
        ensures
            count == self.loaded().len(),
    {
        self.rules.len()
    }

    /// The ids of the rules, in their order.
    pub fn rule_ids(&self) -> (ids: Vec<&str>)
        ensures
            ids@.map_values(|s: &str| s@) == self.loaded().map_values(|r: Rule| r.id@),
    {
        let mut ids: Vec<&str> = Vec::new();
        let mut i: usize = 0;
        while i < self.rules.len()
            invariant
                i <= self.rules.len(),
                ids@.len() == i,
                forall|k: int| 0 <= k < i ==> (#[trigger] ids@[k])@ == self.rules@[k].rule.id@,
            decreases self.rules.len() - i,
        {
            ids.push(self.rules[i].rule.id.as_str());
            i = i + 1;
        }
        assert(ids@.map_values(|s: &str| s@) == self.loaded().map_values(|r: Rule| r.id@));
        ids
    }

    /// The first rule with an id.
    pub fn get_rule(&self, id: &str) -> (found: Option<&Rule>)
        ensures
            match found {
                Some(rule) => rule_with_id(self.loaded(), id@) == Some(*rule),
                None => rule_with_id(self.loaded(), id@) is None,
            },
    {
        let ghost all = self.loaded();
        let mut i: usize = 0;
        assert(all.skip(0) == all);
        while i < self.rules.len()
            invariant
                i <= self.rules.len(),
                all == self.loaded(),
                all.len() == self.rules@.len(),
                rule_with_id(all, id@) == rule_with_id(all.skip(i as int), id@),
            decreases self.rules.len() - i,
        {
            assert(all[i as int] == self.rules@[i as int].rule);
            assert(all.skip(i as int)[0] == all[i as int]);
            assert(all.skip(i as int).drop_first() == all.skip(i + 1));
            if same_text(self.rules[i].rule.id.as_str(), id) {
                return Some(&self.rules[i].rule);
            }
            i = i + 1;
        }
        None
    }

    /// The comparisons that the rules ask for: one row for each rule, and in it one place for
    /// each pattern. A place is `None` where the pattern is no field pattern or its comparison
    /// cannot be worked out. What is measured of them goes to `run`, in rows of the same shape.
    pub fn comparisons(&self, doc: &ParsedDocument) -> (table: Vec<Vec<Option<Comparison>>>)
        ensures
            table@.map_values(|r: Vec<Option<Comparison>>| comparison_row(r@))
                == self.loaded().map_values(|r: Rule| rule_comparisons(r, doc@.metrics)),
    {
        let mut table: Vec<Vec<Option<Comparison>>> = Vec::new();
        let mut i: usize = 0;
        while i < self.rules.len()
            invariant
                i <= self.rules.len(),
                table@.len() == i,
                forall|k: int|
                    0 <= k < i ==> comparison_row((#[trigger] table@[k])@) == rule_comparisons(
                        self.rules@[k].rule,
                        doc@.metrics,
                    ),
            decreases self.rules.len() - i,
        {
            let list = comparisons_of(&self.rules[i].rule, doc);
            table.push(list);
            i = i + 1;
        }
        assert(table@.map_values(|r: Vec<Option<Comparison>>| comparison_row(r@))
            == self.loaded().map_values(|r: Rule| rule_comparisons(r, doc@.metrics)));
        table
    }

    /// Runs every rule on a document. `measures` says how the sides of the comparisons stand to
    /// each other; a comparison without a measure does not hold. The most severe findings come
    /// first.
    pub fn run(&self, doc: &ParsedDocument, measures: &Vec<Vec<Option<Measure>>>) -> (matches: Vec<RuleMatch>)
        ensures
            crate::schema::findings(matches@) == run_findings(
                self.loaded(),
                doc@,
                rows(measures@),
            ),
    {
        proof {
            use_type_invariant(self);
        }
        let ghost all = self.loaded();
        let none: Vec<Option<Measure>> = Vec::new();
        let mut matches: Vec<RuleMatch> = Vec::new();
        let mut i: usize = 0;
        assert(crate::schema::findings(matches@) == all_findings(
            all.take(0),
            doc@,
            rows(measures@),
        ));
        while i < self.rules.len()
            invariant
                i <= self.rules.len(),
                self.well_formed(),
                all == self.loaded(),
                none@ == Seq::<Option<Measure>>::empty(),
                crate::schema::findings(matches@) == all_findings(
                    all.take(i as int),
                    doc@,
                    rows(measures@),
                ),
            decreases self.rules.len() - i,
        {
            let compiled = &self.rules[i];
            let measure_row = if i < measures.len() {
                &measures[i]
            } else {
                &none
            };
            assert(all[i as int] == compiled.rule);
            assert(all.take(i + 1).drop_last() == all.take(i as int));
            assert(all.take(i + 1).last() == compiled.rule);
            assert(measure_row@ == row(rows(measures@), i as int));
            let ghost before = matches@;
            if check_conditions(&compiled.rule, doc) {
                assert(self.rules@[i as int].is_aligned());
                let mut more = evaluate_rule(compiled, doc, measure_row);
                let ghost found = more@;
                matches.append(&mut more);
                assert(crate::schema::findings(matches@) == crate::schema::findings(before)
                    + crate::schema::findings(found));
            } else {
                assert(crate::schema::findings(before) + Seq::empty() == crate::schema::findings(
                    before,
                ));
            }
            i = i + 1;
        }
        assert(all.take(i as int) == all);
        sort_by_severity(matches)
    }

    /// Runs every rule on each of some documents.
    pub fn run_batch(
        &self,
        docs: &[&ParsedDocument],
        measures: &Vec<Vec<Vec<Option<Measure>>>>,
    ) -> (results: Vec<Vec<RuleMatch>>)
        ensures
            results@.len() == docs@.len(),
            forall|d: int|
                0 <= d < docs@.len() ==> crate::schema::findings((#[trigger] results@[d])@)
                    == run_findings(
                    self.loaded(),
                    docs@[d]@,
                    if d < measures@.len() {
                        rows(measures@[d]@)
                    } else {
                        Seq::empty()
                    },
                ),
    {
        let none: Vec<Vec<Option<Measure>>> = Vec::new();
        let mut results: Vec<Vec<RuleMatch>> = Vec::new();
        let mut i: usize = 0;
        assert(rows(none@) == Seq::<Seq<Option<Measure>>>::empty());
        while i < docs.len()
            invariant
                i <= docs@.len(),
                results@.len() == i,
                rows(none@) == Seq::<Seq<Option<Measure>>>::empty(),
                forall|d: int|
                    0 <= d < i ==> crate::schema::findings((#[trigger] results@[d])@)
                        == run_findings(
                        self.loaded(),
                        docs@[d]@,
                        if d < measures@.len() {
                            rows(measures@[d]@)
                        } else {
                            Seq::empty()
                        },
                    ),
            decreases docs.len() - i,
        {
            let table = if i < measures.len() {
                &measures[i]
            } else {
                &none
            };
            let found = self.run(docs[i], table);
            results.push(found);
            i = i + 1;
        }
        results
    }
}

// ── Laws ──

/// A rule finds nothing in a document that it excludes, whatever its trigger and its patterns
/// say; nor in one of another type, nor in one without a chapter that triggers it.
pub proof fn a_rule_that_does_not_apply_finds_nothing(
    rule: Rule,
    doc: crate::schema::DocumentView,
    measures: Seq<Option<Measure>>,
)
    requires
        is_excluded(rule, doc) || !is_of_type(rule, doc) || !is_triggered(rule, doc),
    ensures
        rule_findings(rule, doc, measures) == Seq::<crate::schema::RuleMatchView>::empty(),
{
}

/// A comparison that cannot be worked out never makes a rule hit, whatever is measured.
pub proof fn an_unresolved_comparison_never_hits(
    rule: Rule,
    i: int,
    metrics: Seq<crate::schema::MetricView>,
    measures: Seq<Option<Measure>>,
)
    requires
        0 <= i < rule.patterns@.len(),
        crate::operand::comparison_of(rule.patterns@[i], metrics) is None,
    ensures
        !field_hits(rule, i, metrics, measures),
        rule.check == CheckMode::AllMatch && rule.patterns@[i].ptype == PatternType::FieldCompare
            ==> !field_rule_hits(rule, metrics, measures),
{
}

/// A field rule of which no comparison can be worked out finds nothing.
pub proof fn unresolved_comparisons_find_nothing(
    rule: Rule,
    doc: crate::schema::DocumentView,
    measures: Seq<Option<Measure>>,
)
    requires
        has_field(rule),
        forall|i: int|
            0 <= i < rule.patterns@.len() && (#[trigger] rule.patterns@[i]).ptype
                == PatternType::FieldCompare ==> crate::operand::comparison_of(
                rule.patterns@[i],
                doc.metrics,
            ) is None,
    ensures
        rule_findings(rule, doc, measures) == Seq::<crate::schema::RuleMatchView>::empty(),
{
}

/// A regular expression that does not compile hits no text. Where one hit is enough, the rule hits
/// just as it would by its other patterns; where all patterns must hit, it never does.
pub proof fn a_refused_regex_is_skipped(rule: Rule, i: int, text: Seq<char>)
    requires
        0 <= i < rule.patterns@.len(),
        rule.patterns@[i].ptype == PatternType::Regex,
        regex_of(rule.patterns@[i]) is None || crate::outside::refusal(
            regex_of(rule.patterns@[i])->0,
        ) is Some,
    ensures
        !pattern_hits(rule.patterns@[i], text),
        rule.check == CheckMode::AnyMatch ==> clause_hits(rule, text) == exists|k: int|
            0 <= k < rule.patterns@.len() && k != i && is_clause_pattern(
                #[trigger] rule.patterns@[k],
            ) && pattern_hits(rule.patterns@[k], text),
        rule.check == CheckMode::AllMatch ==> !clause_hits(rule, text),
{
}

/// Where all patterns must hit, a rule finds nothing while words that one of its patterns wants
/// absent stand in the document.
pub proof fn all_match_asks_for_every_absence(
    rule: Rule,
    i: int,
    doc: crate::schema::DocumentView,
    measures: Seq<Option<Measure>>,
)
    requires
        rule.check == CheckMode::AllMatch,
        !has_field(rule),
        0 <= i < rule.patterns@.len(),
        is_absence(rule.patterns@[i]),
        some_clause_has(doc.clauses, words_of(rule.patterns@[i])),
    ensures
        rule_findings(rule, doc, measures) == Seq::<crate::schema::RuleMatchView>::empty(),
{
    absence_is_the_contrary_of_presence(rule.patterns@[i], doc.clauses);
}

/// Where all patterns must hit, and all of them ask for words to be absent, the rule finds one
/// thing in a document that it applies to and that has none of the words.
pub proof fn all_absences_find_the_document(
    rule: Rule,
    doc: crate::schema::DocumentView,
    measures: Seq<Option<Measure>>,
)
    requires
        rule.check == CheckMode::AllMatch,
        applies(rule, doc),
        rule.patterns@.len() > 0,
        forall|i: int|
            0 <= i < rule.patterns@.len() ==> is_absence(#[trigger] rule.patterns@[i])
                && words_are_absent(rule.patterns@[i], doc.clauses),
    ensures
        rule_findings(rule, doc, measures) == seq![
            finding(rule, "<document>"@, "（目标章节缺少要求的内容）"@),
        ],
{
    assert(is_absence(rule.patterns@[0]));
}

/// Of two field patterns that differ in contrary operators only, exactly one holds, where the two
/// sides can be told apart.
pub proof fn contrary_patterns_exclude_each_other(
    a: Rule,
    b: Rule,
    i: int,
    metrics: Seq<crate::schema::MetricView>,
    measures: Seq<Option<Measure>>,
)
    requires
        0 <= i < a.patterns@.len(),
        0 <= i < b.patterns@.len(),
        i < measures.len(),
        measures[i] is Some,
        crate::operand::is_definite(measures[i]->0),
        crate::operand::comparison_of(a.patterns@[i], metrics) is Some,
        a.patterns@[i].left == b.patterns@[i].left,
        a.patterns@[i].right == b.patterns@[i].right,
        b.patterns@[i].operator is Some,
        crate::operand::operator_of(b.patterns@[i].operator->0@) == Some(
            crate::operand::contrary(
                crate::operand::comparison_of(a.patterns@[i], metrics)->0.op,
            ),
        ),
    ensures
        field_hits(a, i, metrics, measures) == !field_hits(b, i, metrics, measures),
{
    crate::operand::contrary_operators_exclude_each_other(
        crate::operand::comparison_of(a.patterns@[i], metrics)->0.op,
        measures[i]->0,
    );
}

/// Words are absent from a document exactly where none of them stands in a clause.
pub proof fn absence_is_the_contrary_of_presence(
    p: Pattern,
    clauses: Seq<crate::schema::ClauseView>,
)
    ensures
        words_are_absent(p, clauses) == !some_clause_has(clauses, words_of(p)),
{
}

/// A severity has the same place in the order by its name as by itself.
pub proof fn severity_order_is_that_of_the_name(severity: crate::schema::Severity)
    ensures
        severity_order(severity.name()) == severity.order(),
{
    crate::schema::severities_are_told_apart(severity, crate::schema::Severity::Critical);
    crate::schema::severities_are_told_apart(severity, crate::schema::Severity::High);
    crate::schema::severities_are_told_apart(severity, crate::schema::Severity::Medium);
    reveal_strlit("warning");
    reveal_strlit("low");
    reveal_strlit("high");
    reveal_strlit("critical");
    assert("low"@.len() == 3 && "warning"@.len() == 7);
}

/// An engine runs exactly the rules that are switched on.
pub proof fn a_loaded_rule_is_enabled(rules: Seq<Rule>, rule: Rule)
    ensures
        enabled_rules(rules).contains(rule) <==> rules.contains(rule) && rule.enabled,
{
    let on = |r: Rule| r.enabled;
    broadcast use vstd::seq_lib::group_filter_ensures;

    if enabled_rules(rules).contains(rule) {
        rules.lemma_filter_contains_rev(on, rule);
        let i = choose|i: int|
            0 <= i < enabled_rules(rules).len() && enabled_rules(rules)[i] == rule;
        assert(on(rules.filter(on)[i]));
    }
    if rules.contains(rule) && rule.enabled {
        let i = choose|i: int| 0 <= i < rules.len() && rules[i] == rule;
        assert(rules.filter(on).contains(rules[i]));
    }
}

/// Whether a finding is one of a rule in a document: it names the rule, and points at the
/// document, its metrics or one of its clauses.
pub open spec fn is_finding_of(
    m: crate::schema::RuleMatchView,
    rule: Rule,
    doc: crate::schema::DocumentView,
) -> bool {
    &&& applies(rule, doc)
    &&& m.rule_id == rule.id@
    &&& m.severity == rule.severity.name()
    &&& m.category == rule.category@
    &&& m.suggestion == rule.suggestion@
    &&& m.matched_text.len() <= 120
    &&& m.clause_id == "<document>"@ || m.clause_id == "<metrics>"@ || exists|c: int|
        0 <= c < doc.clauses.len() && m.clause_id == (#[trigger] doc.clauses[c]).id
            && clause_hits(rule, doc.clauses[c].text)
}

/// Each finding of a rule is one of that rule.
proof fn lemma_rule_findings(
    rule: Rule,
    doc: crate::schema::DocumentView,
    measures: Seq<Option<Measure>>,
    m: crate::schema::RuleMatchView,
)
    requires
        rule_findings(rule, doc, measures).contains(m),
    ensures
        is_finding_of(m, rule, doc),
{
    let list = rule_findings(rule, doc, measures);
    let i = choose|i: int| 0 <= i < list.len() && list[i] == m;
    if !has_field(rule) && !document_hits(rule, doc.clauses) {
        let hits = |c: crate::schema::ClauseView| clause_hits(rule, c.text);
        let kept = doc.clauses.filter(hits);
        broadcast use vstd::seq_lib::group_filter_ensures;

        assert(hits(kept[i]));
        assert(kept.contains(kept[i]));
        doc.clauses.lemma_filter_contains_rev(hits, kept[i]);
        let c = choose|c: int| 0 <= c < doc.clauses.len() && doc.clauses[c] == kept[i];
        assert(m.clause_id == doc.clauses[c].id);
    }
}

/// Each finding before sorting is one of a rule.
proof fn lemma_all_findings(
    rules: Seq<Rule>,
    doc: crate::schema::DocumentView,
    measures: Seq<Seq<Option<Measure>>>,
    m: crate::schema::RuleMatchView,
) -> (r: int)
    requires
        all_findings(rules, doc, measures).contains(m),
    ensures
        0 <= r < rules.len(),
        is_finding_of(m, rules[r], doc),
    decreases rules.len(),
{
    let before = all_findings(rules.drop_last(), doc, measures);
    let last = rule_findings(rules.last(), doc, row(measures, rules.len() - 1));
    let all = all_findings(rules, doc, measures);
    let i = choose|i: int| 0 <= i < all.len() && all[i] == m;
    if i < before.len() {
        assert(before[i] == m);
        let r = lemma_all_findings(rules.drop_last(), doc, measures, m);
        assert(rules.drop_last()[r] == rules[r]);
        r
    } else {
        assert(last[i - before.len()] == m);
        lemma_rule_findings(rules.last(), doc, row(measures, rules.len() - 1), m);
        rules.len() - 1
    }
}

/// Every finding of a run is one of a loaded rule that applies to the document.
pub proof fn every_finding_has_its_rule(
    rules: Seq<Rule>,
    doc: crate::schema::DocumentView,
    measures: Seq<Seq<Option<Measure>>>,
    m: crate::schema::RuleMatchView,
)
    requires
        run_findings(rules, doc, measures).contains(m),
    ensures
        exists|r: int| 0 <= r < rules.len() && is_finding_of(m, #[trigger] rules[r], doc),
{
    let all = all_findings(rules, doc, measures);
    sorting_keeps_the_findings(all);
    broadcast use vstd::seq_lib::group_to_multiset_ensures;

    assert(by_severity(all).to_multiset().count(m) > 0);
    assert(all.contains(m));
    let r = lemma_all_findings(rules, doc, measures, m);
    assert(is_finding_of(m, rules[r], doc));
}

/// Without rules nothing is found.
pub proof fn no_rules_find_nothing(
    doc: crate::schema::DocumentView,
    measures: Seq<Seq<Option<Measure>>>,
)
    ensures
        run_findings(Seq::empty(), doc, measures) == Seq::<crate::schema::RuleMatchView>::empty(),
{
    reveal(Seq::filter);
    assert(run_findings(Seq::empty(), doc, measures) =~= Seq::<
        crate::schema::RuleMatchView,
    >::empty());
}

/// Whether one of some strings stands in a text.
pub open spec fn holds_one_of(text: Seq<char>, list: Seq<String>) -> bool {
    exists|w: int| 0 <= w < list.len() && crate::text::contains_text(text, (#[trigger] list[w])@)
}

/// To look for one of the texts of some strings is to look for one of the strings.
proof fn lemma_one_of(text: Seq<char>, list: Seq<String>)
    ensures
        crate::text::contains_any(text, crate::text::texts(list)) == holds_one_of(text, list),
{
    let all = crate::text::texts(list);
    if holds_one_of(text, list) {
        let w = choose|w: int|
            0 <= w < list.len() && crate::text::contains_text(text, (#[trigger] list[w])@);
        assert(all[w] == list[w]@);
    }
    if crate::text::contains_any(text, all) {
        let w = choose|w: int|
            0 <= w < all.len() && crate::text::contains_text(text, #[trigger] all[w]);
        assert(all[w] == list[w]@);
    }
}

/// A rule is kept from a document by one of its excluded project types in the first clause, or by
/// one of its excluded words in any clause. Otherwise it applies if the name of the file has the
/// type that it asks for and, where it names words for chapters, any chapter has any of them.
pub proof fn a_rule_applies_where_its_conditions_are_met(
    rule: Rule,
    doc: crate::schema::DocumentView,
)
    ensures
        applies(rule, doc) <==> {
            &&& rule.conditions.exclude matches Some(exclude) ==> {
                &&& exclude.project_types matches Some(types) ==> !holds_one_of(
                    if doc.clauses.len() > 0 {
                        doc.clauses[0].text
                    } else {
                        Seq::empty()
                    },
                    types@,
                )
                &&& exclude.clause_keywords matches Some(words) ==> forall|c: int|
                    0 <= c < doc.clauses.len() ==> !holds_one_of(
                        (#[trigger] doc.clauses[c]).text,
                        words@,
                    )
            }
            &&& rule.conditions.document_type matches Some(kind) ==> crate::text::contains_text(
                doc.file_name,
                kind@,
            )
            &&& rule.conditions.trigger matches Some(trigger) ==> (trigger.chapter_keywords
                matches Some(words) ==> exists|c: int|
                0 <= c < doc.chapters.len() && holds_one_of(#[trigger] doc.chapters[c], words@))
        },
{
    if let Some(exclude) = rule.conditions.exclude {
        if let Some(types) = exclude.project_types {
            lemma_one_of(project_text(doc), types@);
        }
        if let Some(words) = exclude.clause_keywords {
            assert forall|c: int| 0 <= c < doc.clauses.len() implies crate::text::contains_any(
                (#[trigger] doc.clauses[c]).text,
                crate::text::texts(words@),
            ) == holds_one_of(doc.clauses[c].text, words@) by {
                lemma_one_of(doc.clauses[c].text, words@);
            }
        }
    }
    if let Some(trigger) = rule.conditions.trigger {
        if let Some(words) = trigger.chapter_keywords {
            assert forall|c: int| 0 <= c < doc.chapters.len() implies crate::text::contains_any(
                #[trigger] doc.chapters[c],
                crate::text::texts(words@),
            ) == holds_one_of(doc.chapters[c], words@) by {
                lemma_one_of(doc.chapters[c], words@);
            }
        }
    }
}

/// Any chapter with any of its words triggers a rule that asks for nothing else.
pub proof fn any_chapter_triggers_a_rule(
    rule: Rule,
    doc: crate::schema::DocumentView,
    words: Vec<String>,
    c: int,
    w: int,
)
    requires
        rule.conditions.exclude is None,
        rule.conditions.document_type is None,
        rule.conditions.trigger matches Some(trigger) && trigger.chapter_keywords == Some(words),
        0 <= c < doc.chapters.len(),
        0 <= w < words@.len(),
        crate::text::contains_text(doc.chapters[c], words@[w]@),
    ensures
        applies(rule, doc),
{
    a_rule_applies_where_its_conditions_are_met(rule, doc);
    assert(holds_one_of(doc.chapters[c], words@)) by {
        assert(crate::text::contains_text(doc.chapters[c], (words@[w])@));
    }
}

/// The same of a document itself: the title of any of its chapters may have the word.
pub proof fn the_title_of_any_chapter_triggers_a_rule(
    rule: Rule,
    doc: ParsedDocument,
    words: Vec<String>,
    c: int,
    w: int,
)
    requires
        rule.conditions.exclude is None,
        rule.conditions.document_type is None,
        rule.conditions.trigger matches Some(trigger) && trigger.chapter_keywords == Some(words),
        0 <= c < doc.chapters@.len(),
        0 <= w < words@.len(),
        crate::text::contains_text(doc.chapters@[c].title@, words@[w]@),
    ensures
        applies(rule, doc@),
{
    assert(doc@.chapters[c] == doc.chapters@[c].title@);
    any_chapter_triggers_a_rule(rule, doc@, words, c, w);
}

/// Where no chapter has any of the words that a rule names for chapters, the rule does not apply.
pub proof fn without_its_words_a_rule_is_not_triggered(
    rule: Rule,
    doc: ParsedDocument,
    words: Vec<String>,
)
    requires
        rule.conditions.trigger matches Some(trigger) && trigger.chapter_keywords == Some(words),
        forall|c: int, w: int|
            0 <= c < doc.chapters@.len() && 0 <= w < words@.len() ==> !crate::text::contains_text(
                (#[trigger] doc.chapters@[c]).title@,
                (#[trigger] words@[w])@,
            ),
    ensures
        !applies(rule, doc@),
{
    a_rule_applies_where_its_conditions_are_met(rule, doc@);
    assert forall|c: int| 0 <= c < doc@.chapters.len() implies !holds_one_of(
        #[trigger] doc@.chapters[c],
        words@,
    ) by {
        assert(doc@.chapters[c] == doc.chapters@[c].title@);
    }
}

/// A chapter more, put anywhere among the others, keeps no rule from applying.
pub proof fn a_further_chapter_keeps_no_rule_from_applying(
    rule: Rule,
    doc: crate::schema::DocumentView,
    at: int,
    title: Seq<char>,
)
    requires
        applies(rule, doc),
        0 <= at <= doc.chapters.len(),
    ensures
        applies(
            rule,
            (crate::schema::DocumentView { chapters: doc.chapters.insert(at, title), ..doc }),
        ),
{
    let more = doc.chapters.insert(at, title);
    assert forall|c: int| 0 <= c < doc.chapters.len() implies more.contains(
        #[trigger] doc.chapters[c],
    ) by {
        assert(more[if c < at {
            c
        } else {
            c + 1
        }] == doc.chapters[c]);
    }
    more_chapters_keep_no_rule_from_applying(rule, doc, more);
}

/// The order of the chapters does not matter.
pub proof fn the_order_of_chapters_does_not_matter(
    rule: Rule,
    doc: crate::schema::DocumentView,
    chapters: Seq<Seq<char>>,
)
    requires
        chapters.to_multiset() == doc.chapters.to_multiset(),
    ensures
        applies(rule, doc) == applies(rule, (crate::schema::DocumentView { chapters, ..doc })),
{
    let other = crate::schema::DocumentView { chapters, ..doc };
    broadcast use vstd::seq_lib::group_to_multiset_ensures;

    assert forall|c: int| 0 <= c < doc.chapters.len() implies chapters.contains(
        #[trigger] doc.chapters[c],
    ) by {
        assert(doc.chapters.to_multiset().count(doc.chapters[c]) > 0);
        assert(chapters.to_multiset().count(doc.chapters[c]) > 0);
    }
    assert forall|c: int| 0 <= c < chapters.len() implies doc.chapters.contains(
        #[trigger] chapters[c],
    ) by {
        assert(chapters.to_multiset().count(chapters[c]) > 0);
        assert(doc.chapters.to_multiset().count(chapters[c]) > 0);
    }
    if applies(rule, doc) {
        more_chapters_keep_no_rule_from_applying(rule, doc, chapters);
    }
    if applies(rule, other) {
        more_chapters_keep_no_rule_from_applying(rule, other, doc.chapters);
        assert((crate::schema::DocumentView { chapters: doc.chapters, ..other }) == doc);
    }
}

/// Further chapters, and another order of them, keep no rule from applying.
pub proof fn more_chapters_keep_no_rule_from_applying(
    rule: Rule,
    doc: crate::schema::DocumentView,
    chapters: Seq<Seq<char>>,
)
    requires
        applies(rule, doc),
        forall|c: int| 0 <= c < doc.chapters.len() ==> chapters.contains(#[trigger] doc.chapters[c]),
    ensures
        applies(rule, (crate::schema::DocumentView { chapters, ..doc })),
{
    let other = crate::schema::DocumentView { chapters, ..doc };
    a_rule_applies_where_its_conditions_are_met(rule, doc);
    a_rule_applies_where_its_conditions_are_met(rule, other);
    if let Some(trigger) = rule.conditions.trigger {
        if let Some(words) = trigger.chapter_keywords {
            let c = choose|c: int|
                0 <= c < doc.chapters.len() && holds_one_of(#[trigger] doc.chapters[c], words@);
            let k = choose|k: int| 0 <= k < chapters.len() && chapters[k] == doc.chapters[c];
            assert(holds_one_of(other.chapters[k], words@));
        }
    }
}

/// Whether a pattern is a list of keywords whose absence is asked for.
pub open spec fn wants_absence(p: Pattern) -> bool {
    p.ptype == PatternType::Keyword && (p.match_mode matches Some(mode) && mode@ == "absence"@)
}

/// Whether one of the words of a pattern stands in a text.
pub open spec fn has_word_of(p: Pattern, text: Seq<char>) -> bool {
    match p.value {
        Some(crate::schema::PatternValue::List(v)) => holds_one_of(text, v@),
        Some(crate::schema::PatternValue::Single(s)) => crate::text::contains_text(text, s@),
        None => false,
    }
}

/// Whether a pattern has words and all of them stand in a text.
pub open spec fn has_words_of(p: Pattern, text: Seq<char>) -> bool {
    match p.value {
        Some(crate::schema::PatternValue::List(v)) => v@.len() > 0 && forall|w: int|
            0 <= w < v@.len() ==> crate::text::contains_text(text, (#[trigger] v@[w])@),
        Some(crate::schema::PatternValue::Single(s)) => crate::text::contains_text(text, s@),
        None => false,
    }
}

/// To look for the words of a pattern is to look for its strings.
proof fn lemma_words(p: Pattern, text: Seq<char>)
    ensures
        crate::text::contains_any(text, words_of(p)) == has_word_of(p, text),
        crate::text::contains_all(text, words_of(p)) == has_words_of(p, text),
{
    match p.value {
        Some(crate::schema::PatternValue::List(v)) => {
            lemma_one_of(text, v@);
            let all = words_of(p);
            assert(all.len() == v@.len());
            assert forall|w: int| 0 <= w < v@.len() implies #[trigger] all[w] == v@[w]@ by {}
            if has_words_of(p, text) {
                assert forall|w: int| 0 <= w < all.len() implies crate::text::contains_text(
                    text,
                    #[trigger] all[w],
                ) by {
                    assert(crate::text::contains_text(text, (v@[w])@));
                }
            }
            if crate::text::contains_all(text, all) {
                assert forall|w: int| 0 <= w < v@.len() implies crate::text::contains_text(
                    text,
                    (#[trigger] v@[w])@,
                ) by {
                    assert(crate::text::contains_text(text, all[w]));
                }
            }
        },
        Some(crate::schema::PatternValue::Single(s)) => {
            assert(words_of(p)[0] == s@);
            crate::text::words_are_looked_for_one_by_one(text, s@, Seq::empty(), Seq::empty());
        },
        None => {},
    }
}

/// A pattern hits a clause by its kind: a list of keywords by any of them, or by all of them under
/// `AND`, and not at all where it asks for their absence; a regular expression, as far as it
/// compiles, by a match; a field comparison not at all.
pub proof fn a_pattern_hits_by_its_kind(p: Pattern, text: Seq<char>, source: Seq<char>)
    ensures
        p.ptype == PatternType::FieldCompare ==> !pattern_hits(p, text),
        wants_absence(p) ==> !pattern_hits(p, text),
        p.ptype == PatternType::Keyword && !wants_absence(p) ==> pattern_hits(p, text) == (
        if p.operator matches Some(op) && op@ == "AND"@ {
            has_words_of(p, text)
        } else {
            has_word_of(p, text)
        }),
        p.ptype == PatternType::Regex && p.value is None ==> !pattern_hits(p, text),
        p.ptype == PatternType::Regex && (match p.value {
            Some(crate::schema::PatternValue::Single(s)) => s@ == source,
            Some(crate::schema::PatternValue::List(v)) => v@.len() > 0 && v@[0]@ == source,
            None => false,
        }) ==> pattern_hits(p, text) == (crate::outside::refusal(
            crate::escape::normalized(source),
        ) is None && crate::outside::regex_matches(crate::escape::normalized(source), text)),
{
    lemma_words(p, text);
}

/// Where one hit is enough, a rule hits a clause by any of its patterns, wherever it stands among
/// them; where all must hit, by nothing less than all that look at clauses, and only if there is
/// one.
pub proof fn a_rule_hits_by_any_or_all_of_its_patterns(rule: Rule, text: Seq<char>)
    ensures
        rule.check == CheckMode::AnyMatch ==> clause_hits(rule, text) == exists|i: int|
            0 <= i < rule.patterns@.len() && pattern_hits(#[trigger] rule.patterns@[i], text),
        rule.check == CheckMode::AllMatch ==> clause_hits(rule, text) == {
            &&& exists|i: int|
                0 <= i < rule.patterns@.len() && (#[trigger] rule.patterns@[i]).ptype
                    != PatternType::FieldCompare && !wants_absence(rule.patterns@[i])
            &&& forall|i: int|
                0 <= i < rule.patterns@.len() && (#[trigger] rule.patterns@[i]).ptype
                    != PatternType::FieldCompare && !wants_absence(rule.patterns@[i])
                    ==> pattern_hits(rule.patterns@[i], text)
        },
{
    let matched = regexes_matched(rule, text);
    assert forall|i: int| 0 <= i < rule.patterns@.len() implies matched[i] == regex_hits(
        #[trigger] rule.patterns@[i],
        text,
    ) && is_clause_pattern(rule.patterns@[i]) == (rule.patterns@[i].ptype
        != PatternType::FieldCompare && !wants_absence(rule.patterns@[i])) && (!is_clause_pattern(
        rule.patterns@[i],
    ) ==> !pattern_hits(rule.patterns@[i], text)) by {}
    if rule.check == CheckMode::AnyMatch {
        if exists|i: int|
            0 <= i < rule.patterns@.len() && pattern_hits(#[trigger] rule.patterns@[i], text) {
            let i = choose|i: int|
                0 <= i < rule.patterns@.len() && pattern_hits(#[trigger] rule.patterns@[i], text);
            assert(is_clause_pattern(rule.patterns@[i]));
        }
    }
}

/// A finding shows the rule, its severity by name, its category and suggestion, the law in the words
/// of the rule or else by name and article, where it was found, and at most 120 characters of what
/// was found.
pub proof fn a_finding_shows_its_rule(rule: Rule, clause_id: Seq<char>, text: Seq<char>)
    ensures
        ({
            let m = finding(rule, clause_id, text);
            &&& m.rule_id == rule.id@
            &&& m.clause_id == clause_id
            &&& m.category == rule.category@
            &&& m.suggestion == rule.suggestion@
            &&& rule.severity == crate::schema::Severity::Critical ==> m.severity == "critical"@
            &&& rule.severity == crate::schema::Severity::High ==> m.severity == "high"@
            &&& rule.severity == crate::schema::Severity::Medium ==> m.severity == "medium"@
            &&& rule.severity == crate::schema::Severity::Low ==> m.severity == "low"@
            &&& rule.law_ref matches Some(reference) ==> m.law_ref == reference@
            &&& rule.law_ref is None ==> m.law_ref == "《"@ + rule.source.law@ + "》"@
                + rule.source.article@
            &&& m.matched_text == (if text.len() <= 120 {
                text
            } else {
                text.take(120)
            })
        }),
{
}

/// Clauses are searched one by one, each for itself: one gives a finding with its id and its text
/// exactly if the rule hits it, and the findings come in the order of the clauses.
pub proof fn clauses_are_searched_one_by_one(
    rule: Rule,
    a: Seq<crate::schema::ClauseView>,
    b: Seq<crate::schema::ClauseView>,
)
    ensures
        clause_findings(rule, a + b) == clause_findings(rule, a) + clause_findings(rule, b),
        a.len() == 0 ==> clause_findings(rule, a).len() == 0,
        a.len() == 1 ==> clause_findings(rule, a) == (if clause_hits(rule, a[0].text) {
            seq![finding(rule, a[0].id, a[0].text)]
        } else {
            Seq::empty()
        }),
{
    let hits = |c: crate::schema::ClauseView| clause_hits(rule, c.text);
    let show = |c: crate::schema::ClauseView| finding(rule, c.id, c.text);
    Seq::filter_distributes_over_add(a, b, hits);
    assert((a.filter(hits) + b.filter(hits)).map_values(show) =~= a.filter(hits).map_values(show)
        + b.filter(hits).map_values(show));
    reveal(Seq::filter);
    if a.len() == 1 {
        assert(a.drop_last() =~= Seq::<crate::schema::ClauseView>::empty());
        assert(a.drop_last().filter(hits) =~= Seq::<crate::schema::ClauseView>::empty());
        if hits(a[0]) {
            assert(a.filter(hits) =~= a);
            assert(clause_findings(rule, a) =~= seq![finding(rule, a[0].id, a[0].text)]);
        } else {
            assert(clause_findings(rule, a) =~= Seq::<crate::schema::RuleMatchView>::empty());
        }
    }
}

/// Whether a pattern wants words absent, and none of them stands in any clause.
pub open spec fn finds_absence(p: Pattern, clauses: Seq<crate::schema::ClauseView>) -> bool {
    wants_absence(p) && forall|c: int|
        0 <= c < clauses.len() ==> !has_word_of(p, (#[trigger] clauses[c]).text)
}

/// An absence is found where none of the words stands in any clause.
proof fn lemma_absence(p: Pattern, clauses: Seq<crate::schema::ClauseView>)
    ensures
        finds_absence(p, clauses) == (is_absence(p) && words_are_absent(p, clauses)),
{
    assert forall|c: int| 0 <= c < clauses.len() implies crate::text::contains_any(
        (#[trigger] clauses[c]).text,
        words_of(p),
    ) == has_word_of(p, clauses[c].text) by {
        lemma_words(p, clauses[c].text);
    }
}

/// What a rule without field comparisons finds in a document that it applies to. Where one hit is
/// enough: the document itself if any pattern finds its words absent, and otherwise the clauses
/// that it hits. Where all must hit: nothing if any pattern finds words that it wants absent;
/// otherwise the clauses that it hits, or the document if it asks for nothing but absence.
pub proof fn a_text_rule_finds_clauses_or_the_document(
    rule: Rule,
    doc: crate::schema::DocumentView,
    measures: Seq<Option<Measure>>,
)
    requires
        applies(rule, doc),
        forall|i: int|
            0 <= i < rule.patterns@.len() ==> (#[trigger] rule.patterns@[i]).ptype
                != PatternType::FieldCompare,
    ensures
        rule.check == CheckMode::AnyMatch && (exists|i: int|
            0 <= i < rule.patterns@.len() && finds_absence(
                #[trigger] rule.patterns@[i],
                doc.clauses,
            )) ==> rule_findings(rule, doc, measures) == seq![
            finding(rule, "<document>"@, "（目标章节缺少要求的内容）"@),
        ],
        rule.check == CheckMode::AnyMatch && !(exists|i: int|
            0 <= i < rule.patterns@.len() && finds_absence(
                #[trigger] rule.patterns@[i],
                doc.clauses,
            )) ==> rule_findings(rule, doc, measures) == clause_findings(rule, doc.clauses),
        rule.check == CheckMode::AllMatch && (exists|i: int|
            0 <= i < rule.patterns@.len() && wants_absence(#[trigger] rule.patterns@[i])
                && !finds_absence(rule.patterns@[i], doc.clauses)) ==> rule_findings(
            rule,
            doc,
            measures,
        ).len() == 0,
        rule.check == CheckMode::AllMatch && !(exists|i: int|
            0 <= i < rule.patterns@.len() && wants_absence(#[trigger] rule.patterns@[i])
                && !finds_absence(rule.patterns@[i], doc.clauses)) ==> rule_findings(
            rule,
            doc,
            measures,
        ) == (if rule.patterns@.len() > 0 && forall|i: int|
            0 <= i < rule.patterns@.len() ==> wants_absence(#[trigger] rule.patterns@[i]) {
            seq![finding(rule, "<document>"@, "（目标章节缺少要求的内容）"@)]
        } else {
            clause_findings(rule, doc.clauses)
        }),
{
    assert forall|i: int| 0 <= i < rule.patterns@.len() implies finds_absence(
        #[trigger] rule.patterns@[i],
        doc.clauses,
    ) == (is_absence(rule.patterns@[i]) && words_are_absent(rule.patterns@[i], doc.clauses))
        && wants_absence(rule.patterns@[i]) == is_absence(rule.patterns@[i]) && is_clause_pattern(
        rule.patterns@[i],
    ) == !wants_absence(rule.patterns@[i]) by {
        lemma_absence(rule.patterns@[i], doc.clauses);
    }
    assert(!has_field(rule));
    if rule.check == CheckMode::AllMatch && !(exists|i: int|
        0 <= i < rule.patterns@.len() && wants_absence(#[trigger] rule.patterns@[i])
            && !finds_absence(rule.patterns@[i], doc.clauses)) {
        assert(absences_hold(rule, doc.clauses));
        if rule.patterns@.len() > 0 && forall|i: int|
            0 <= i < rule.patterns@.len() ==> wants_absence(#[trigger] rule.patterns@[i]) {
            assert(is_absence(rule.patterns@[0]));
        } else if rule.patterns@.len() > 0 {
            let i = choose|i: int|
                0 <= i < rule.patterns@.len() && !wants_absence(#[trigger] rule.patterns@[i]);
            assert(is_clause_pattern(rule.patterns@[i]));
        }
    }
}

/// What a rule with field comparisons finds in a document that it applies to: its metrics, once,
/// with its first comparison shown, if one comparison holds, or all of them do where all must; and
/// otherwise nothing.
pub proof fn a_field_rule_finds_the_metrics(
    rule: Rule,
    doc: crate::schema::DocumentView,
    measures: Seq<Option<Measure>>,
    f: int,
)
    requires
        applies(rule, doc),
        0 <= f < rule.patterns@.len(),
        rule.patterns@[f].ptype == PatternType::FieldCompare,
        forall|i: int|
            0 <= i < f ==> (#[trigger] rule.patterns@[i]).ptype != PatternType::FieldCompare,
    ensures
        rule_findings(rule, doc, measures) == (if (match rule.check {
            CheckMode::AnyMatch => exists|i: int|
                0 <= i < rule.patterns@.len() && (#[trigger] rule.patterns@[i]).ptype
                    == PatternType::FieldCompare && is_met(rule.patterns@[i], i, doc, measures),
            CheckMode::AllMatch => forall|i: int|
                0 <= i < rule.patterns@.len() && (#[trigger] rule.patterns@[i]).ptype
                    == PatternType::FieldCompare ==> is_met(rule.patterns@[i], i, doc, measures),
        }) {
            seq![
                finding(
                    rule,
                    "<metrics>"@,
                    crate::operand::text_or_empty(rule.patterns@[f].left) + " "@
                        + crate::operand::text_or_empty(rule.patterns@[f].operator) + " "@ + (
                    match rule.patterns@[f].right {
                        Some(crate::schema::Scalar::Num(n)) => n@,
                        Some(crate::schema::Scalar::Text(t)) => t@,
                        None => Seq::empty(),
                    }),
                ),
            ]
        } else {
            Seq::empty()
        }),
{
    lemma_first_field(rule.patterns@, f);
    assert(has_field(rule));
    assert forall|i: int| 0 <= i < rule.patterns@.len() implies field_hits(
        rule,
        i,
        doc.metrics,
        measures,
    ) == is_met(#[trigger] rule.patterns@[i], i, doc, measures) by {}
}

/// Whether a field comparison can be worked out, its sides were measured, and it holds of the
/// measure.
pub open spec fn is_met(
    p: Pattern,
    i: int,
    doc: crate::schema::DocumentView,
    measures: Seq<Option<Measure>>,
) -> bool {
    &&& crate::operand::comparison_of(p, doc.metrics) is Some
    &&& i < measures.len()
    &&& measures[i] is Some
    &&& crate::operand::holds(
        crate::operand::comparison_of(p, doc.metrics)->0.op,
        measures[i]->0,
    )
}

/// One more rule adds what it finds, and takes nothing away.
pub proof fn one_more_rule_adds_its_findings(
    rules: Seq<Rule>,
    rule: Rule,
    doc: crate::schema::DocumentView,
    measures: Seq<Seq<Option<Measure>>>,
)
    ensures
        run_findings(rules.push(rule), doc, measures).to_multiset() == run_findings(
            rules,
            doc,
            measures,
        ).to_multiset().add(
            rule_findings(
                rule,
                doc,
                if rules.len() < measures.len() {
                    measures[rules.len() as int]
                } else {
                    Seq::empty()
                },
            ).to_multiset(),
        ),
{
    let more = rules.push(rule);
    assert(more.drop_last() =~= rules);
    let before = all_findings(rules, doc, measures);
    let found = rule_findings(rule, doc, row(measures, rules.len() as int));
    sorting_keeps_the_findings(before);
    sorting_keeps_the_findings(all_findings(more, doc, measures));
    vstd::seq_lib::lemma_multiset_commutative(before, found);
}

/// The findings of each rule are among those of all.
proof fn lemma_rule_is_run(
    rules: Seq<Rule>,
    doc: crate::schema::DocumentView,
    measures: Seq<Seq<Option<Measure>>>,
    r: int,
    m: crate::schema::RuleMatchView,
)
    requires
        0 <= r < rules.len(),
        rule_findings(rules[r], doc, row(measures, r)).contains(m),
    ensures
        all_findings(rules, doc, measures).contains(m),
    decreases rules.len(),
{
    let before = all_findings(rules.drop_last(), doc, measures);
    let last = rule_findings(rules.last(), doc, row(measures, rules.len() - 1));
    let all = all_findings(rules, doc, measures);
    if r < rules.len() - 1 {
        assert(rules.drop_last()[r] == rules[r]);
        lemma_rule_is_run(rules.drop_last(), doc, measures, r, m);
        let i = choose|i: int| 0 <= i < before.len() && before[i] == m;
        assert(all[i] == m);
    } else {
        let i = choose|i: int| 0 <= i < last.len() && last[i] == m;
        assert(all[before.len() + i] == m);
    }
}

/// Whatever a rule finds, a run of rules that has it among them finds.
pub proof fn a_run_finds_what_its_rules_find(
    rules: Seq<Rule>,
    doc: crate::schema::DocumentView,
    measures: Seq<Seq<Option<Measure>>>,
    r: int,
    m: crate::schema::RuleMatchView,
)
    requires
        0 <= r < rules.len(),
        rule_findings(
            rules[r],
            doc,
            if r < measures.len() {
                measures[r]
            } else {
                Seq::empty()
            },
        ).contains(m),
    ensures
        run_findings(rules, doc, measures).contains(m),
{
    lemma_rule_is_run(rules, doc, measures, r, m);
    let all = all_findings(rules, doc, measures);
    sorting_keeps_the_findings(all);
    broadcast use vstd::seq_lib::group_to_multiset_ensures;

    assert(all.to_multiset().count(m) > 0);
    assert(by_severity(all).to_multiset().count(m) > 0);
}

/// A keyword that stands in a clause, any clause, any of the keywords, is found there by a rule
/// that applies, for which one hit is enough, and which looks at clauses only.
pub proof fn a_keyword_in_a_clause_is_found(
    rules: Seq<Rule>,
    doc: crate::schema::DocumentView,
    measures: Seq<Seq<Option<Measure>>>,
    r: int,
    i: int,
    words: Vec<String>,
    w: int,
    c: int,
)
    requires
        0 <= r < rules.len(),
        applies(rules[r], doc),
        rules[r].check == CheckMode::AnyMatch,
        forall|k: int|
            0 <= k < rules[r].patterns@.len() ==> (#[trigger] rules[r].patterns@[k]).ptype
                != PatternType::FieldCompare && !wants_absence(rules[r].patterns@[k]),
        0 <= i < rules[r].patterns@.len(),
        rules[r].patterns@[i].ptype == PatternType::Keyword,
        !(rules[r].patterns@[i].operator matches Some(op) && op@ == "AND"@),
        rules[r].patterns@[i].value == Some(crate::schema::PatternValue::List(words)),
        0 <= w < words@.len(),
        0 <= c < doc.clauses.len(),
        crate::text::contains_text(doc.clauses[c].text, words@[w]@),
    ensures
        exists|m: crate::schema::RuleMatchView|
            #[trigger] run_findings(rules, doc, measures).contains(m) && m.rule_id == rules[r].id@
                && m.clause_id == doc.clauses[c].id && m.matched_text == (
            if doc.clauses[c].text.len() <= 120 {
                doc.clauses[c].text
            } else {
                doc.clauses[c].text.take(120)
            }),
{
    let rule = rules[r];
    let text = doc.clauses[c].text;
    let p = rule.patterns@[i];
    let own = if r < measures.len() {
        measures[r]
    } else {
        Seq::empty()
    };
    assert(holds_one_of(text, words@)) by {
        assert(crate::text::contains_text(text, (words@[w])@));
    }
    a_pattern_hits_by_its_kind(p, text, Seq::empty());
    a_rule_hits_by_any_or_all_of_its_patterns(rule, text);
    assert(pattern_hits(rule.patterns@[i], text));
    a_text_rule_finds_clauses_or_the_document(rule, doc, own);
    let (before, here, after) = (
        doc.clauses.take(c),
        seq![doc.clauses[c]],
        doc.clauses.skip(c + 1),
    );
    assert(doc.clauses =~= before + here + after);
    clauses_are_searched_one_by_one(rule, before + here, after);
    clauses_are_searched_one_by_one(rule, before, here);
    clauses_are_searched_one_by_one(rule, here, after);
    let m = finding(rule, doc.clauses[c].id, text);
    let found = clause_findings(rule, doc.clauses);
    assert(found[clause_findings(rule, before).len() as int] == m);
    assert(found.contains(m));
    assert forall|k: int| 0 <= k < rule.patterns@.len() implies !finds_absence(
        #[trigger] rule.patterns@[k],
        doc.clauses,
    ) by {}
    a_run_finds_what_its_rules_find(rules, doc, measures, r, m);
}

/// The severities by name: critical, high, then medium or warning, then any other.
proof fn lemma_severity_names(a: Seq<char>, b: Seq<char>)
    requires
        severity_order(a) <= severity_order(b),
    ensures
        b == "critical"@ ==> a == "critical"@,
        b == "high"@ ==> a == "critical"@ || a == "high"@,
        b == "medium"@ || b == "warning"@ ==> a == "critical"@ || a == "high"@ || a == "medium"@
            || a == "warning"@,
{
    reveal_strlit("critical");
    reveal_strlit("high");
    reveal_strlit("medium");
    reveal_strlit("warning");
    assert("critical"@.len() == 8 && "high"@.len() == 4 && "medium"@.len() == 6
        && "warning"@.len() == 7);
}

/// The findings of a run come by severity: critical ones first, then high, then medium ones, then
/// the others.
pub proof fn a_run_lists_findings_by_severity(
    rules: Seq<Rule>,
    doc: crate::schema::DocumentView,
    measures: Seq<Seq<Option<Measure>>>,
    i: int,
    j: int,
)
    requires
        0 <= i <= j < run_findings(rules, doc, measures).len(),
    ensures
        ({
            let a = run_findings(rules, doc, measures)[i].severity;
            let b = run_findings(rules, doc, measures)[j].severity;
            &&& b == "critical"@ ==> a == "critical"@
            &&& b == "high"@ ==> a == "critical"@ || a == "high"@
            &&& b == "medium"@ || b == "warning"@ ==> a == "critical"@ || a == "high"@ || a
                == "medium"@ || a == "warning"@
        }),
{
    let all = all_findings(rules, doc, measures);
    findings_are_sorted(all);
    lemma_severity_names(by_severity(all)[i].severity, by_severity(all)[j].severity);
}

/// Those findings of a list that have a severity keep their order in the sorted list.
pub proof fn findings_of_a_severity_keep_their_order(
    list: Seq<crate::schema::RuleMatchView>,
    severity: Seq<char>,
)
    ensures
        by_severity(list).filter(|m: crate::schema::RuleMatchView| m.severity == severity)
            == list.filter(|m: crate::schema::RuleMatchView| m.severity == severity),
{
    let keep = |m: crate::schema::RuleMatchView| m.severity == severity;
    let order = severity_order(severity);
    let in_order = |m: crate::schema::RuleMatchView| severity_order(m.severity) == order;
    sorting_is_stable(list, order);
    lemma_filter_within(by_severity(list), keep, in_order);
    lemma_filter_within(list, keep, in_order);
    assert(of_order(list, order) == list.filter(in_order));
    assert(of_order(by_severity(list), order) == by_severity(list).filter(in_order));
}

/// A run finds what a rule finds, in the order in which the rule finds it, as far as the severity
/// is one: rules with the lower place come first.
pub proof fn a_run_of_one_severity_goes_by_the_rules(
    rules: Seq<Rule>,
    rule: Rule,
    doc: crate::schema::DocumentView,
    measures: Seq<Seq<Option<Measure>>>,
    severity: Seq<char>,
)
    ensures
        ({
            let keep = |m: crate::schema::RuleMatchView| m.severity == severity;
            run_findings(rules.push(rule), doc, measures).filter(keep) == run_findings(
                rules,
                doc,
                measures,
            ).filter(keep) + rule_findings(
                rule,
                doc,
                if rules.len() < measures.len() {
                    measures[rules.len() as int]
                } else {
                    Seq::empty()
                },
            ).filter(keep)
        }),
{
    let keep = |m: crate::schema::RuleMatchView| m.severity == severity;
    let more = rules.push(rule);
    assert(more.drop_last() =~= rules);
    let before = all_findings(rules, doc, measures);
    let found = rule_findings(rule, doc, row(measures, rules.len() as int));
    findings_of_a_severity_keep_their_order(before, severity);
    findings_of_a_severity_keep_their_order(before + found, severity);
    Seq::filter_distributes_over_add(before, found, keep);
}

/// To keep some of a list is to keep them of more of it.
proof fn lemma_filter_within(
    list: Seq<crate::schema::RuleMatchView>,
    keep: spec_fn(crate::schema::RuleMatchView) -> bool,
    wider: spec_fn(crate::schema::RuleMatchView) -> bool,
)
    requires
        forall|m: crate::schema::RuleMatchView| #[trigger] keep(m) ==> wider(m),
    ensures
        list.filter(keep) == list.filter(wider).filter(keep),
    decreases list.len(),
{
    reveal(Seq::filter);
    if list.len() > 0 {
        let rest = list.drop_last();
        lemma_filter_within(rest, keep, wider);
        let kept = rest.filter(wider);
        if wider(list.last()) {
            assert(kept.push(list.last()).drop_last() =~= kept);
        }
    }
}

/// Rules are loaded one by one: each that is switched on, in its place, and no other.
pub proof fn rules_are_loaded_one_by_one(rules: Seq<Rule>, rule: Rule)
    ensures
        enabled_rules(Seq::empty()).len() == 0,
        enabled_rules(rules.push(rule)) == (if rule.enabled {
            enabled_rules(rules).push(rule)
        } else {
            enabled_rules(rules)
        }),
{
    reveal(Seq::filter);
    assert(rules.push(rule).drop_last() =~= rules);
}

/// A rule is found by its id; of two with one id the first counts.
pub proof fn the_first_rule_of_an_id_counts(a: Seq<Rule>, b: Seq<Rule>, id: Seq<char>)
    ensures
        rule_with_id(Seq::empty(), id) is None,
        a.len() == 1 ==> rule_with_id(a, id) == (if a[0].id@ == id {
            Some(a[0])
        } else {
            None
        }),
        rule_with_id(a + b, id) == (match rule_with_id(a, id) {
            Some(rule) => Some(rule),
            None => rule_with_id(b, id),
        }),
    decreases a.len(),
{
    if a.len() == 0 {
        assert(a + b =~= b);
    } else {
        assert((a + b)[0] == a[0]);
        assert((a + b).drop_first() =~= a.drop_first() + b);
        the_first_rule_of_an_id_counts(a.drop_first(), b, id);
        if a.len() == 1 {
            assert(a.drop_first() =~= Seq::<Rule>::empty());
        }
    }
}

/// The comparisons of a rule have a place for each of its patterns: that of a field comparison holds
/// the comparison, if it can be worked out, and every other place holds none.
pub proof fn each_pattern_has_its_comparison(
    rule: Rule,
    metrics: Seq<crate::schema::MetricView>,
    i: int,
)
    requires
        0 <= i < rule.patterns@.len(),
    ensures
        rule_comparisons(rule, metrics).len() == rule.patterns@.len(),
        rule.patterns@[i].ptype == PatternType::FieldCompare ==> rule_comparisons(rule, metrics)[i]
            == crate::operand::comparison_of(rule.patterns@[i], metrics),
        rule.patterns@[i].ptype != PatternType::FieldCompare ==> rule_comparisons(rule, metrics)[i]
            is None,
{
}

/// Rows of comparisons and of measures are modelled one by one.
pub proof fn rows_are_their_entries(
    list: Seq<Option<Comparison>>,
    measures: Seq<Vec<Option<Measure>>>,
    i: int,
)
    ensures
        comparison_row(list).len() == list.len(),
        0 <= i < list.len() ==> (list[i] matches Some(c) ==> comparison_row(list)[i] == Some(c@)),
        0 <= i < list.len() && list[i] is None ==> comparison_row(list)[i] is None,
        rows(measures).len() == measures.len(),
        0 <= i < measures.len() ==> rows(measures)[i] == measures[i]@,
{
}

/// A regular expression hits exactly where it is said to match; any other pattern hits whatever is
/// said of a match.
pub proof fn a_regex_hits_as_it_is_said_to(p: Pattern, matched: bool, text: Seq<char>)
    ensures
        p.ptype == PatternType::Regex ==> pattern_hits_given(p, matched, text) == matched,
        p.ptype != PatternType::Regex ==> pattern_hits_given(p, matched, text) == pattern_hits(
            p,
            text,
        ),
{
}

/// Given which regular expressions match, a rule hits a clause by any of its patterns, or by all that
/// look at clauses, if there is one.
pub proof fn a_clause_is_hit_as_it_is_said_to(rule: Rule, matched: Seq<bool>, text: Seq<char>)
    requires
        matched.len() == rule.patterns@.len(),
    ensures
        rule.check == CheckMode::AnyMatch ==> clause_hits_given(rule, matched, text) == exists|i: int|
            0 <= i < rule.patterns@.len() && pattern_hits_given(
                #[trigger] rule.patterns@[i],
                matched[i],
                text,
            ),
        rule.check == CheckMode::AllMatch ==> clause_hits_given(rule, matched, text) == {
            &&& exists|i: int|
                0 <= i < rule.patterns@.len() && (#[trigger] rule.patterns@[i]).ptype
                    != PatternType::FieldCompare && !wants_absence(rule.patterns@[i])
            &&& forall|i: int|
                0 <= i < rule.patterns@.len() && (#[trigger] rule.patterns@[i]).ptype
                    != PatternType::FieldCompare && !wants_absence(rule.patterns@[i])
                    ==> pattern_hits_given(rule.patterns@[i], matched[i], text)
        },
{
    assert forall|i: int| 0 <= i < rule.patterns@.len() implies is_clause_pattern(
        #[trigger] rule.patterns@[i],
    ) == (rule.patterns@[i].ptype != PatternType::FieldCompare && !wants_absence(
        rule.patterns@[i],
    )) && (!is_clause_pattern(rule.patterns@[i]) ==> !pattern_hits_given(
        rule.patterns@[i],
        matched[i],
        text,
    )) by {}
    if rule.check == CheckMode::AnyMatch {
        if exists|i: int|
            0 <= i < rule.patterns@.len() && pattern_hits_given(
                #[trigger] rule.patterns@[i],
                matched[i],
                text,
            ) {
            let i = choose|i: int|
                0 <= i < rule.patterns@.len() && pattern_hits_given(
                    #[trigger] rule.patterns@[i],
                    matched[i],
                    text,
                );
            assert(is_clause_pattern(rule.patterns@[i]));
        }
    }
}

} // verus!
