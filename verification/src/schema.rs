//! The rule model and the document model.
//!
//! A rule has six elements (id, category, industry, severity, source, conditions) and what it
//! looks for (patterns, check). Regular expressions and keywords are matched against the text of
//! each clause; a field comparison looks at the numbers that were read from the whole document.
//!
//! Numbers are carried as decimal text or as integers. Whoever holds a floating-point unit turns
//! them into values.

use vstd::prelude::*;

verus! {

// ── Enumerations ──

/// Whether one hit is enough or every pattern must hit.
#[derive(Debug, Clone, Copy, PartialEq, Eq, Structural)]
pub enum CheckMode {
    AnyMatch,
    AllMatch,
}

/// How severe a finding is.
#[derive(Debug, Clone, Copy, PartialEq, Eq, PartialOrd, Ord, Structural)]
pub enum Severity {
    Low,
    Medium,
    High,
    Critical,
}

impl Severity {
    /// The name of a severity in a finding.
    pub open spec fn name(self) -> Seq<char> {
        match self {
            Severity::Critical => "critical"@,
            Severity::High => "high"@,
            Severity::Medium => "medium"@,
            Severity::Low => "low"@,
        }
    }

    /// The place of a severity in the order of findings.
    pub open spec fn order(self) -> u8 {
        match self {
            Severity::Critical => 0,
            Severity::High => 1,
            Severity::Medium => 2,
            Severity::Low => 3,
        }
    }

    /// The name of a severity in a finding.
    pub fn as_str(&self) -> (name: &'static str)
        ensures
            name@ == self.name(),
    {
        match self {
            Severity::Critical => "critical",
            Severity::High => "high",
            Severity::Medium => "medium",
            Severity::Low => "low",
        }
    }

    /// The place of a severity in the order of findings: the smaller, the more severe.
    pub fn rank(&self) -> (rank: u8)
        ensures
            rank == self.order(),
    {
        match self {
            Severity::Critical => 0,
            Severity::High => 1,
            Severity::Medium => 2,
            Severity::Low => 3,
        }
    }
}

/// Severities differ in their ranks and in their names.
pub proof fn severities_are_told_apart(a: Severity, b: Severity)
    ensures
        a.order() == b.order() <==> a == b,
        a.name() == b.name() <==> a == b,
{
    reveal_strlit("critical");
    reveal_strlit("high");
    reveal_strlit("medium");
    reveal_strlit("low");
    assert(a.name()[0] == b.name()[0] <==> a == b);
}

/// The kind of a pattern.
#[derive(Debug, Clone, Copy, PartialEq, Eq, Structural)]
pub enum PatternType {
    Regex,
    Keyword,
    FieldCompare,
}

// ── Rules ──

/// One rule.
#[derive(Debug, Clone)]
pub struct Rule {
    pub id: String,
    pub category: String,
    pub industry: String,
    pub severity: Severity,
    pub source: Source,
    pub conditions: Conditions,
    pub patterns: Vec<Pattern>,
    pub check: CheckMode,
    pub suggestion: String,
    pub law_ref: Option<String>,
    /// A disabled rule is not loaded.
    pub enabled: bool,
}

/// The law that a rule rests on.
#[derive(Debug, Clone)]
pub struct Source {
    pub law: String,
    pub article: String,
    pub version: Option<String>,
    pub effective_date: Option<String>,
    pub excerpt: Option<String>,
}

/// When a rule applies to a document.
#[derive(Debug, Clone)]
pub struct Conditions {
    pub document_type: Option<String>,
    pub project_types: Option<Vec<String>>,
    pub trigger: Option<Trigger>,
    pub exclude: Option<Exclude>,
}

impl Default for Conditions {
    /// No condition: the rule applies to every document.
    fn default() -> (conditions: Conditions)
        ensures
            conditions.document_type is None,
            conditions.project_types is None,
            conditions.trigger is None,
            conditions.exclude is None,
    {
        Conditions { document_type: None, project_types: None, trigger: None, exclude: None }
    }
}

/// What a document must hold for a rule to apply.
#[derive(Debug, Clone)]
pub struct Trigger {
    pub chapter_keywords: Option<Vec<String>>,
}

/// What keeps a rule from applying.
#[derive(Debug, Clone)]
pub struct Exclude {
    pub project_types: Option<Vec<String>>,
    pub clause_keywords: Option<Vec<String>>,
}

/// The value of a pattern: a list of keywords, or one regular expression.
#[derive(Debug, Clone)]
pub enum PatternValue {
    List(Vec<String>),
    Single(String),
}

impl PatternValue {
    /// The texts of a value, a single one as a list of one.
    pub open spec fn list(self) -> Seq<Seq<char>> {
        match self {
            PatternValue::List(v) => crate::text::texts(v@),
            PatternValue::Single(s) => seq![s@],
        }
    }

    /// The single text of a value, or the first of a list.
    pub open spec fn single(self) -> Option<Seq<char>> {
        if self.list().len() > 0 {
            Some(self.list()[0])
        } else {
            None
        }
    }

    /// The texts of a value, a single one as a list of one.
    pub fn as_list(&self) -> (list: Vec<String>)
        ensures
            crate::text::texts(list@) == self.list(),
    {
        match self {
            PatternValue::List(v) => v.clone(),
            PatternValue::Single(s) => {
                let mut list: Vec<String> = Vec::new();
                list.push(s.clone());
                list
            },
        }
    }

    /// The single text of a value, or the first of a list.
    pub fn as_single(&self) -> (single: Option<String>)
        ensures
            match single {
                Some(s) => self.single() == Some(s@),
                None => self.single() is None,
            },
    {
        match self {
            PatternValue::List(v) => if v.len() > 0 {
                Some(v[0].clone())
            } else {
                None
            },
            PatternValue::Single(s) => Some(s.clone()),
        }
    }
}

/// The right-hand side of a field comparison: a number, as it prints, or an expression.
#[derive(Debug, Clone)]
pub enum Scalar {
    Num(String),
    Text(String),
}

impl Scalar {
    /// The expression that a scalar stands for.
    pub open spec fn expr(self) -> Seq<char> {
        match self {
            Scalar::Num(n) => n@,
            Scalar::Text(s) => s@,
        }
    }

    /// The expression that a scalar stands for.
    pub fn as_expr(&self) -> (expr: String)
        ensures
            expr@ == self.expr(),
    {
        match self {
            Scalar::Num(n) => n.clone(),
            Scalar::Text(s) => s.clone(),
        }
    }
}

/// One pattern of a rule.
#[derive(Debug, Clone)]
pub struct Pattern {
    pub ptype: PatternType,
    pub value: Option<PatternValue>,
    /// `OR` or `AND` of a keyword pattern, or the operator of a field comparison.
    pub operator: Option<String>,
    pub match_mode: Option<String>,
    pub left: Option<String>,
    pub right: Option<Scalar>,
    pub target: Option<String>,
    pub description: Option<String>,
    pub unit: Option<String>,
}

/// The content of a rule file.
#[derive(Debug)]
pub struct RuleFile {
    pub rules: Vec<Rule>,
}

// ── Documents ──

/// A number that was read from a document: a day number, or a decimal literal times a factor.
#[derive(Debug, Clone)]
pub enum Quantity {
    Days(u64),
    Scaled { digits: String, factor: u64 },
}

/// The model of a quantity.
pub enum QuantityView {
    Days(u64),
    Scaled { digits: Seq<char>, factor: u64 },
}

impl View for Quantity {
    type V = QuantityView;

    open spec fn view(&self) -> QuantityView {
        match self {
            Quantity::Days(n) => QuantityView::Days(*n),
            Quantity::Scaled { digits, factor } => QuantityView::Scaled {
                digits: digits@,
                factor: *factor,
            },
        }
    }
}

impl Quantity {
    /// The same quantity once more.
    pub fn copy(&self) -> (quantity: Quantity)
        ensures
            quantity@ == self@,
    {
        match self {
            Quantity::Days(n) => Quantity::Days(*n),
            Quantity::Scaled { digits, factor } => Quantity::Scaled {
                digits: digits.clone(),
                factor: *factor,
            },
        }
    }
}

/// A named number of a document.
#[derive(Debug, Clone)]
pub struct Metric {
    pub name: String,
    pub value: Quantity,
}

/// The model of a metric.
pub struct MetricView {
    pub name: Seq<char>,
    pub value: QuantityView,
}

impl View for Metric {
    type V = MetricView;

    open spec fn view(&self) -> MetricView {
        MetricView { name: self.name@, value: self.value@ }
    }
}

/// A parsed document.
#[derive(Debug, Clone)]
pub struct ParsedDocument {
    pub file_name: String,
    /// The chapter titles, for the trigger of a rule.
    pub chapters: Vec<Chapter>,
    /// The clauses, to which regular expressions and keywords are applied.
    pub clauses: Vec<Clause>,
    /// The numbers of the document, for field comparisons.
    pub metrics: Vec<Metric>,
}

/// The model of a document.
#[verifier::ext_equal]
pub struct DocumentView {
    pub file_name: Seq<char>,
    pub chapters: Seq<Seq<char>>,
    pub clauses: Seq<ClauseView>,
    pub metrics: Seq<MetricView>,
}

impl View for ParsedDocument {
    type V = DocumentView;

    open spec fn view(&self) -> DocumentView {
        DocumentView {
            file_name: self.file_name@,
            chapters: self.chapters@.map_values(|c: Chapter| c@),
            clauses: self.clauses@.map_values(|c: Clause| c@),
            metrics: self.metrics@.map_values(|m: Metric| m@),
        }
    }
}

impl Default for ParsedDocument {
    /// The empty document.
    fn default() -> (doc: ParsedDocument)
        ensures
            doc@ == (DocumentView {
                file_name: Seq::empty(),
                chapters: Seq::empty(),
                clauses: Seq::empty(),
                metrics: Seq::empty(),
            }),
    {
        ParsedDocument {
            file_name: String::new(),
            chapters: Vec::new(),
            clauses: Vec::new(),
            metrics: Vec::new(),
        }
    }
}

/// A chapter of a document.
#[derive(Debug, Clone)]
pub struct Chapter {
    pub title: String,
}

impl View for Chapter {
    type V = Seq<char>;

    open spec fn view(&self) -> Seq<char> {
        self.title@
    }
}

/// A clause of a document.
#[derive(Debug, Clone)]
pub struct Clause {
    pub id: String,
    pub page: u32,
    pub text: String,
}

/// The model of a clause.
pub struct ClauseView {
    pub id: Seq<char>,
    pub page: u32,
    pub text: Seq<char>,
}

impl View for Clause {
    type V = ClauseView;

    open spec fn view(&self) -> ClauseView {
        ClauseView { id: self.id@, page: self.page, text: self.text@ }
    }
}

/// One finding of the engine.
#[derive(Debug, Clone, PartialEq)]
pub struct RuleMatch {
    pub rule_id: String,
    pub clause_id: String,
    pub severity: String,
    pub category: String,
    pub suggestion: String,
    pub law_ref: String,
    pub matched_text: String,
}

/// The model of a finding.
#[verifier::ext_equal]
pub struct RuleMatchView {
    pub rule_id: Seq<char>,
    pub clause_id: Seq<char>,
    pub severity: Seq<char>,
    pub category: Seq<char>,
    pub suggestion: Seq<char>,
    pub law_ref: Seq<char>,
    pub matched_text: Seq<char>,
}

impl View for RuleMatch {
    type V = RuleMatchView;

    open spec fn view(&self) -> RuleMatchView {
        RuleMatchView {
            rule_id: self.rule_id@,
            clause_id: self.clause_id@,
            severity: self.severity@,
            category: self.category@,
            suggestion: self.suggestion@,
            law_ref: self.law_ref@,
            matched_text: self.matched_text@,
        }
    }
}

/// The models of a list of findings.
pub open spec fn findings(list: Seq<RuleMatch>) -> Seq<RuleMatchView> {
    list.map_values(|m: RuleMatch| m@)
}

/// The more severe a finding, the sooner it comes, and it is called by the name of its severity.
pub proof fn severities_have_their_order_and_names()
    ensures
        Severity::Critical.order() < Severity::High.order() < Severity::Medium.order()
            < Severity::Low.order(),
        Severity::Critical.name() == "critical"@,
        Severity::High.name() == "high"@,
        Severity::Medium.name() == "medium"@,
        Severity::Low.name() == "low"@,
{
}

/// A document is modelled by its parts, each in its place: the titles of its chapters, its clauses
/// and its metrics.
pub proof fn a_document_is_its_parts(doc: ParsedDocument, c: int, k: int, m: int)
    requires
        0 <= c < doc.chapters@.len(),
        0 <= k < doc.clauses@.len(),
        0 <= m < doc.metrics@.len(),
    ensures
        doc@.file_name == doc.file_name@,
        doc@.chapters.len() == doc.chapters@.len(),
        doc@.chapters[c] == doc.chapters@[c].title@,
        doc@.clauses.len() == doc.clauses@.len(),
        doc@.clauses[k].id == doc.clauses@[k].id@,
        doc@.clauses[k].page == doc.clauses@[k].page,
        doc@.clauses[k].text == doc.clauses@[k].text@,
        doc@.metrics.len() == doc.metrics@.len(),
        doc@.metrics[m].name == doc.metrics@[m].name@,
        doc.metrics@[m].value matches Quantity::Days(n) ==> doc@.metrics[m].value
            == QuantityView::Days(n),
        doc.metrics@[m].value matches Quantity::Scaled { digits, factor } ==> doc@.metrics[m].value
            == (QuantityView::Scaled { digits: digits@, factor }),
{
}

/// Findings are modelled one by one, each by all of its texts.
pub proof fn findings_are_their_texts(list: Seq<RuleMatch>, i: int)
    requires
        0 <= i < list.len(),
    ensures
        findings(list).len() == list.len(),
        findings(list)[i].rule_id == list[i].rule_id@,
        findings(list)[i].clause_id == list[i].clause_id@,
        findings(list)[i].severity == list[i].severity@,
        findings(list)[i].category == list[i].category@,
        findings(list)[i].suggestion == list[i].suggestion@,
        findings(list)[i].law_ref == list[i].law_ref@,
        findings(list)[i].matched_text == list[i].matched_text@,
{
}

/// A value gives all of its texts in their order, a single one as a list of one, and as a single
/// text the first of them, if there is one.
pub proof fn a_value_gives_its_texts(list: Vec<String>, i: int, one: String)
    requires
        0 <= i < list@.len(),
    ensures
        PatternValue::List(list).list().len() == list@.len(),
        PatternValue::List(list).list()[i] == list@[i]@,
        PatternValue::List(list).single() == Some(list@[0]@),
        PatternValue::Single(one).list() == seq![one@],
        PatternValue::Single(one).single() == Some(one@),
{
}

/// A list without texts has no single text.
pub proof fn an_empty_list_gives_no_text(value: PatternValue)
    ensures
        value.single() is None <==> (value matches PatternValue::List(list) && list@.len() == 0),
{
}

/// A scalar stands for its own text, be it a number or not.
pub proof fn a_scalar_is_its_text(text: String)
    ensures
        Scalar::Num(text).expr() == text@,
        Scalar::Text(text).expr() == text@,
{
}

} // verus!
