//! Operands and comparisons of field patterns.
//!
//! An operand is a number, the name of a metric, or `A - B`, `A + B`, `A * B`. What it stands for
//! is worked out here down to the numbers themselves. Adding them up, and measuring how the two
//! sides of a comparison stand to each other, is left to whoever evaluates the comparison; what the
//! operator makes of that is decided here.

use crate::number::float_literal;
use crate::schema::{Metric, MetricView, Pattern, Quantity, QuantityView};
use crate::text::{cut, find, same_text, trim};
use vstd::prelude::*;

verus! {

/// An operand, worked out down to quantities.
#[derive(Debug)]
pub enum Operand {
    Value(Quantity),
    Difference(Box<Operand>, Box<Operand>),
    Sum(Box<Operand>, Box<Operand>),
    Product(Box<Operand>, Box<Operand>),
}

/// The model of an operand.
pub enum OperandView {
    Value(QuantityView),
    Difference(Box<OperandView>, Box<OperandView>),
    Sum(Box<OperandView>, Box<OperandView>),
    Product(Box<OperandView>, Box<OperandView>),
}

impl Operand {
    /// The model of an operand.
    pub open spec fn model(self) -> OperandView
        decreases self,
    {
        match self {
            Operand::Value(q) => OperandView::Value(q@),
            Operand::Difference(a, b) => OperandView::Difference(
                Box::new(a.model()),
                Box::new(b.model()),
            ),
            Operand::Sum(a, b) => OperandView::Sum(Box::new(a.model()), Box::new(b.model())),
            Operand::Product(a, b) => OperandView::Product(
                Box::new(a.model()),
                Box::new(b.model()),
            ),
        }
    }
}

impl View for Operand {
    type V = OperandView;

    open spec fn view(&self) -> OperandView {
        self.model()
    }
}

/// The value of the first metric of that name.
pub open spec fn metric_value(metrics: Seq<MetricView>, name: Seq<char>) -> Option<QuantityView>
    decreases metrics.len(),
{
    if metrics.len() == 0 {
        None
    } else if metrics[0].name == name {
        Some(metrics[0].value)
    } else {
        metric_value(metrics.drop_first(), name)
    }
}

/// The models of a list of metrics.
pub open spec fn metric_models(metrics: Seq<Metric>) -> Seq<MetricView> {
    metrics.map_values(|m: Metric| m@)
}

/// The two sides of a text around the first `sign` in it.
pub open spec fn sides(text: Seq<char>, sign: Seq<char>) -> Option<(Seq<char>, Seq<char>)> {
    match crate::text::first_occurrence(text, sign) {
        Some(i) => Some((text.take(i), text.skip(i + sign.len()))),
        None => None,
    }
}

/// Each side is shorter than the text.
pub proof fn lemma_sides_are_shorter(text: Seq<char>, sign: Seq<char>)
    requires
        sign.len() > 0,
    ensures
        sides(text, sign) matches Some((a, b)) ==> a.len() < text.len() && b.len() < text.len(),
{
    crate::text::lemma_first_from(text, sign, 0);
}

/// Two operands, if there are both.
pub open spec fn both(a: Option<OperandView>, b: Option<OperandView>) -> Option<
    (Box<OperandView>, Box<OperandView>),
> {
    match (a, b) {
        (Some(x), Some(y)) => Some((Box::new(x), Box::new(y))),
        _ => None,
    }
}

/// What an operand expression stands for, or `None` where it cannot be worked out.
///
/// White space around it does not count. A number stands for itself, the name of a metric for its
/// value. Otherwise the expression is split at the first ` - ` in it; if there is none, at the
/// first ` + `; if there is none, at the first ` * `.
pub open spec fn operand_of(expr: Seq<char>, metrics: Seq<MetricView>) -> Option<OperandView>
    decreases expr.len(),
{
    let e = crate::text::trimmed(expr);
    if crate::number::is_float_literal(e) {
        Some(OperandView::Value(QuantityView::Scaled { digits: e, factor: 1 }))
    } else if metric_value(metrics, e) is Some {
        Some(OperandView::Value(metric_value(metrics, e)->0))
    } else {
        proof {
            reveal_strlit(" - ");
            reveal_strlit(" + ");
            reveal_strlit(" * ");
            crate::text::lemma_trimmed_len(expr);
            lemma_sides_are_shorter(e, " - "@);
            lemma_sides_are_shorter(e, " + "@);
            lemma_sides_are_shorter(e, " * "@);
        }
        match (sides(e, " - "@), sides(e, " + "@), sides(e, " * "@)) {
            (Some((a, b)), _, _) => match both(operand_of(a, metrics), operand_of(b, metrics)) {
                Some((x, y)) => Some(OperandView::Difference(x, y)),
                None => None,
            },
            (None, Some((a, b)), _) => match both(operand_of(a, metrics), operand_of(b, metrics)) {
                Some((x, y)) => Some(OperandView::Sum(x, y)),
                None => None,
            },
            (None, None, Some((a, b))) => match both(
                operand_of(a, metrics),
                operand_of(b, metrics),
            ) {
                Some((x, y)) => Some(OperandView::Product(x, y)),
                None => None,
            },
            (None, None, None) => None,
        }
    }
}

/// The value of the first metric of that name.
pub fn find_metric(metrics: &Vec<Metric>, name: &str) -> (value: Option<Quantity>)
    ensures
        match value {
            Some(q) => metric_value(metric_models(metrics@), name@) == Some(q@),
            None => metric_value(metric_models(metrics@), name@) is None,
        },
{
    let ghost all = metric_models(metrics@);
    let mut i: usize = 0;
    assert(all.skip(0) == all);
    while i < metrics.len()
        invariant
            i <= metrics.len(),
            all == metric_models(metrics@),
            metric_value(all, name@) == metric_value(all.skip(i as int), name@),
        decreases metrics.len() - i,
    {
        assert(all.skip(i as int)[0] == metrics@[i as int]@);
        assert(all.skip(i as int).drop_first() == all.skip(i + 1));
        if same_text(metrics[i].name.as_str(), name) {
            return Some(metrics[i].value.copy());
        }
        i = i + 1;
    }
    None
}

/// The two sides of a text around the first `sign` in it.
fn split(text: &str, sign: &str) -> (parts: Option<(String, String)>)
    ensures
        match parts {
            Some((a, b)) => sides(text@, sign@) == Some((a@, b@)),
            None => sides(text@, sign@) is None,
        },
{
    match find(text, sign) {
        Some(i) => {
            proof {
                crate::text::lemma_first_from(text@, sign@, 0);
            }
            let n = text.unicode_len();
            let m = sign.unicode_len();
            let a = cut(text, 0, i);
            let b = cut(text, i + m, n);
            assert(text@.subrange(0, i as int) == text@.take(i as int));
            assert(text@.subrange(i + m, n as int) == text@.skip(i + m));
            Some((a, b))
        },
        None => None,
    }
}

/// Works out the two sides of an operand.
fn resolve_both(left: &str, right: &str, metrics: &Vec<Metric>) -> (pair: Option<
    (Box<Operand>, Box<Operand>),
>)
    ensures
        match pair {
            Some((a, b)) => both(
                operand_of(left@, metric_models(metrics@)),
                operand_of(right@, metric_models(metrics@)),
            ) == Some((Box::new(a@), Box::new(b@))),
            None => both(
                operand_of(left@, metric_models(metrics@)),
                operand_of(right@, metric_models(metrics@)),
            ) is None,
        },
    decreases
            if left@.len() > right@.len() {
                left@.len()
            } else {
                right@.len()
            }, 1int,
{
    match resolve_operand(left, metrics) {
        Some(a) => match resolve_operand(right, metrics) {
            Some(b) => Some((Box::new(a), Box::new(b))),
            None => None,
        },
        None => None,
    }
}

/// Works out what an operand expression stands for.
pub fn resolve_operand(expr: &str, metrics: &Vec<Metric>) -> (operand: Option<Operand>)
    ensures
        match operand {
            Some(o) => operand_of(expr@, metric_models(metrics@)) == Some(o@),
            None => operand_of(expr@, metric_models(metrics@)) is None,
        },
    decreases expr@.len(), 0int,
{
    let e = trim(expr);
    proof {
        reveal_strlit(" - ");
        reveal_strlit(" + ");
        reveal_strlit(" * ");
        crate::text::lemma_trimmed_len(expr@);
        lemma_sides_are_shorter(e@, " - "@);
        lemma_sides_are_shorter(e@, " + "@);
        lemma_sides_are_shorter(e@, " * "@);
    }
    if float_literal(e.as_str()) {
        return Some(Operand::Value(Quantity::Scaled { digits: e, factor: 1 }));
    }
    if let Some(q) = find_metric(metrics, e.as_str()) {
        return Some(Operand::Value(q));
    }
    if let Some((a, b)) = split(e.as_str(), " - ") {
        return match resolve_both(a.as_str(), b.as_str(), metrics) {
            Some((x, y)) => Some(Operand::Difference(x, y)),
            None => None,
        };
    }
    if let Some((a, b)) = split(e.as_str(), " + ") {
        return match resolve_both(a.as_str(), b.as_str(), metrics) {
            Some((x, y)) => Some(Operand::Sum(x, y)),
            None => None,
        };
    }
    if let Some((a, b)) = split(e.as_str(), " * ") {
        return match resolve_both(a.as_str(), b.as_str(), metrics) {
            Some((x, y)) => Some(Operand::Product(x, y)),
            None => None,
        };
    }
    None
}

// ── Comparisons ──

/// The operator of a comparison.
#[derive(Debug, Clone, Copy, PartialEq, Eq, Structural)]
pub enum CompareOp {
    Less,
    LessOrEqual,
    Greater,
    GreaterOrEqual,
    Equal,
    NotEqual,
}

/// The operator that a text names.
pub open spec fn operator_of(text: Seq<char>) -> Option<CompareOp> {
    if text == "<"@ {
        Some(CompareOp::Less)
    } else if text == "<="@ {
        Some(CompareOp::LessOrEqual)
    } else if text == ">"@ {
        Some(CompareOp::Greater)
    } else if text == ">="@ {
        Some(CompareOp::GreaterOrEqual)
    } else if text == "=="@ {
        Some(CompareOp::Equal)
    } else if text == "!="@ {
        Some(CompareOp::NotEqual)
    } else {
        None
    }
}

/// The operator that a text names.
pub fn parse_operator(text: &str) -> (op: Option<CompareOp>)
    ensures
        op == operator_of(text@),
{
    if same_text(text, "<") {
        Some(CompareOp::Less)
    } else if same_text(text, "<=") {
        Some(CompareOp::LessOrEqual)
    } else if same_text(text, ">") {
        Some(CompareOp::Greater)
    } else if same_text(text, ">=") {
        Some(CompareOp::GreaterOrEqual)
    } else if same_text(text, "==") {
        Some(CompareOp::Equal)
    } else if same_text(text, "!=") {
        Some(CompareOp::NotEqual)
    } else {
        None
    }
}

/// How the value on the left stands to the one on the right. Values that are no numbers have no
/// order.
#[derive(Debug, Clone, Copy, PartialEq, Eq, Structural)]
pub enum Order {
    Less,
    Equal,
    Greater,
    Unordered,
}

/// How far two values are apart: no further than rounding explains, further, or not to be told.
#[derive(Debug, Clone, Copy, PartialEq, Eq, Structural)]
pub enum Distance {
    Near,
    Far,
    Unknown,
}

/// What was measured of the two sides of a comparison.
#[derive(Debug, Clone, Copy, PartialEq, Eq, Structural)]
pub struct Measure {
    pub order: Order,
    pub distance: Distance,
}

/// Whether an operator holds of two sides, by what was measured of them. Values count as equal
/// where they are near.
pub open spec fn holds(op: CompareOp, m: Measure) -> bool {
    match op {
        CompareOp::Less => m.order == Order::Less,
        CompareOp::LessOrEqual => m.order == Order::Less || m.order == Order::Equal,
        CompareOp::Greater => m.order == Order::Greater,
        CompareOp::GreaterOrEqual => m.order == Order::Greater || m.order == Order::Equal,
        CompareOp::Equal => m.distance == Distance::Near,
        CompareOp::NotEqual => m.distance == Distance::Far,
    }
}

/// Whether an operator holds of two sides, by what was measured of them.
pub fn compare(op: CompareOp, m: Measure) -> (hit: bool)
    ensures
        hit == holds(op, m),
{
    match op {
        CompareOp::Less => m.order == Order::Less,
        CompareOp::LessOrEqual => m.order == Order::Less || m.order == Order::Equal,
        CompareOp::Greater => m.order == Order::Greater,
        CompareOp::GreaterOrEqual => m.order == Order::Greater || m.order == Order::Equal,
        CompareOp::Equal => m.distance == Distance::Near,
        CompareOp::NotEqual => m.distance == Distance::Far,
    }
}

/// The operator that holds where another does not.
pub open spec fn contrary(op: CompareOp) -> CompareOp {
    match op {
        CompareOp::Less => CompareOp::GreaterOrEqual,
        CompareOp::LessOrEqual => CompareOp::Greater,
        CompareOp::Greater => CompareOp::LessOrEqual,
        CompareOp::GreaterOrEqual => CompareOp::Less,
        CompareOp::Equal => CompareOp::NotEqual,
        CompareOp::NotEqual => CompareOp::Equal,
    }
}

/// Whether two sides can be told apart in either way. All finite values can.
pub open spec fn is_definite(m: Measure) -> bool {
    m.order != Order::Unordered && m.distance != Distance::Unknown
}

/// A comparison of two operands that have been worked out.
#[derive(Debug)]
pub struct Comparison {
    pub left: Operand,
    pub op: CompareOp,
    pub right: Operand,
}

/// The model of a comparison.
pub struct ComparisonView {
    pub left: OperandView,
    pub op: CompareOp,
    pub right: OperandView,
}

impl View for Comparison {
    type V = ComparisonView;

    open spec fn view(&self) -> ComparisonView {
        ComparisonView { left: self.left@, op: self.op, right: self.right@ }
    }
}

/// The comparison that a field pattern asks for, or `None` where a part of it is missing, an
/// operand cannot be worked out, or the operator is not known.
pub open spec fn comparison_of(p: Pattern, metrics: Seq<MetricView>) -> Option<ComparisonView> {
    match (p.left, p.operator, p.right) {
        (Some(left), Some(op), Some(right)) => match (
            operand_of(left@, metrics),
            operator_of(op@),
            operand_of(right.expr(), metrics),
        ) {
            (Some(l), Some(o), Some(r)) => Some(ComparisonView { left: l, op: o, right: r }),
            _ => None,
        },
        _ => None,
    }
}

/// The comparison that a field pattern asks for.
pub fn field_comparison(p: &Pattern, metrics: &Vec<Metric>) -> (comparison: Option<Comparison>)
    ensures
        match comparison {
            Some(c) => comparison_of(*p, metric_models(metrics@)) == Some(c@),
            None => comparison_of(*p, metric_models(metrics@)) is None,
        },
{
    if let Some(left) = &p.left {
        if let Some(op) = &p.operator {
            if let Some(right) = &p.right {
                let expr = right.as_expr();
                let l = resolve_operand(left.as_str(), metrics);
                let o = parse_operator(op.as_str());
                let r = resolve_operand(expr.as_str(), metrics);
                return match (l, o, r) {
                    (Some(left), Some(op), Some(right)) => Some(Comparison { left, op, right }),
                    _ => None,
                };
            }
        }
    }
    None
}

/// The text of an optional string, empty where there is none.
pub open spec fn text_or_empty(text: Option<String>) -> Seq<char> {
    match text {
        Some(s) => s@,
        None => Seq::empty(),
    }
}

/// How a field pattern is shown in a finding: left side, operator and right side.
pub open spec fn comparison_text(p: Pattern) -> Seq<char> {
    text_or_empty(p.left) + " "@ + text_or_empty(p.operator) + " "@ + (match p.right {
        Some(r) => r.expr(),
        None => Seq::empty(),
    })
}

/// How a field pattern is shown in a finding: left side, operator and right side.
pub fn describe_compare(p: &Pattern) -> (shown: String)
    ensures
        shown@ == comparison_text(*p),
{
    let mut shown = String::new();
    if let Some(left) = &p.left {
        shown.append(left.as_str());
    }
    shown.append(" ");
    if let Some(op) = &p.operator {
        shown.append(op.as_str());
    }
    shown.append(" ");
    if let Some(right) = &p.right {
        let expr = right.as_expr();
        shown.append(expr.as_str());
    }
    assert(shown@ == comparison_text(*p));
    shown
}

// ── Laws ──

/// Of two contrary operators exactly one holds, where the two sides can be told apart.
pub proof fn contrary_operators_exclude_each_other(op: CompareOp, m: Measure)
    requires
        is_definite(m),
    ensures
        holds(op, m) == !holds(contrary(op), m),
        contrary(contrary(op)) == op,
{
}

/// A comparison asks for the operator that its text names, of the two operands that stand left and
/// right of it. The operator does not change which operands those are.
pub proof fn the_operands_do_not_depend_on_the_operator(
    a: Pattern,
    b: Pattern,
    metrics: Seq<MetricView>,
)
    requires
        a.left == b.left,
        a.right == b.right,
        comparison_of(a, metrics) is Some,
        comparison_of(b, metrics) is Some,
    ensures
        comparison_of(a, metrics)->0.left == comparison_of(b, metrics)->0.left,
        comparison_of(a, metrics)->0.right == comparison_of(b, metrics)->0.right,
        operator_of(a.operator->0@) == Some(comparison_of(a, metrics)->0.op),
{
}

/// Metrics are looked up one after the other: the first of a name counts.
pub proof fn metrics_are_looked_up_in_order(a: Seq<MetricView>, b: Seq<MetricView>, name: Seq<char>)
    ensures
        metric_value(Seq::empty(), name) is None,
        a.len() == 1 ==> metric_value(a, name) == (if a[0].name == name {
            Some(a[0].value)
        } else {
            None
        }),
        metric_value(a + b, name) == (match metric_value(a, name) {
            Some(value) => Some(value),
            None => metric_value(b, name),
        }),
    decreases a.len(),
{
    if a.len() == 0 {
        assert(a + b =~= b);
    } else {
        assert((a + b)[0] == a[0]);
        assert((a + b).drop_first() =~= a.drop_first() + b);
        metrics_are_looked_up_in_order(a.drop_first(), b, name);
        if a.len() == 1 {
            assert(a.drop_first() =~= Seq::<MetricView>::empty());
        }
    }
}

/// An operator is named by its sign, and nothing else names one.
pub proof fn operators_are_named_by_their_signs(text: Seq<char>)
    ensures
        operator_of("<"@) == Some(CompareOp::Less),
        operator_of("<="@) == Some(CompareOp::LessOrEqual),
        operator_of(">"@) == Some(CompareOp::Greater),
        operator_of(">="@) == Some(CompareOp::GreaterOrEqual),
        operator_of("=="@) == Some(CompareOp::Equal),
        operator_of("!="@) == Some(CompareOp::NotEqual),
        operator_of(text) is Some ==> text == "<"@ || text == "<="@ || text == ">"@ || text
            == ">="@ || text == "=="@ || text == "!="@,
{
    reveal_strlit("<");
    reveal_strlit("<=");
    reveal_strlit(">");
    reveal_strlit(">=");
    reveal_strlit("==");
    reveal_strlit("!=");
    assert("<"@.len() == 1 && "<="@.len() == 2 && ">"@.len() == 1 && ">="@.len() == 2
        && "=="@.len() == 2 && "!="@.len() == 2);
    assert("<"@[0] != ">"@[0] && "<="@[0] != ">="@[0] && "<="@[0] != "=="@[0] && "<="@[0]
        != "!="@[0] && ">="@[0] != "=="@[0] && ">="@[0] != "!="@[0] && "=="@[0] != "!="@[0]);
}

/// Of whole numbers, which are ordered and either the same or far apart, an operator says what its
/// sign says.
pub proof fn operators_compare_whole_numbers(a: int, b: int, m: Measure)
    requires
        a < b ==> m.order == Order::Less && m.distance == Distance::Far,
        a == b ==> m.order == Order::Equal && m.distance == Distance::Near,
        a > b ==> m.order == Order::Greater && m.distance == Distance::Far,
    ensures
        holds(CompareOp::Less, m) == (a < b),
        holds(CompareOp::LessOrEqual, m) == (a <= b),
        holds(CompareOp::Greater, m) == (a > b),
        holds(CompareOp::GreaterOrEqual, m) == (a >= b),
        holds(CompareOp::Equal, m) == (a == b),
        holds(CompareOp::NotEqual, m) == (a != b),
{
}

/// Values that are near each other count as equal whatever their order, those that are not count as
/// different; what cannot be told holds of no operator.
pub proof fn near_values_are_equal(m: Measure)
    ensures
        m.distance == Distance::Near ==> holds(CompareOp::Equal, m) && !holds(
            CompareOp::NotEqual,
            m,
        ),
        m.distance == Distance::Far ==> !holds(CompareOp::Equal, m) && holds(
            CompareOp::NotEqual,
            m,
        ),
        m.distance == Distance::Unknown ==> !holds(CompareOp::Equal, m) && !holds(
            CompareOp::NotEqual,
            m,
        ),
        m.order == Order::Unordered ==> !holds(CompareOp::Less, m) && !holds(
            CompareOp::LessOrEqual,
            m,
        ) && !holds(CompareOp::Greater, m) && !holds(CompareOp::GreaterOrEqual, m),
{
}

/// White space around an operand does not count.
pub proof fn white_space_around_an_operand_does_not_count(
    before: Seq<char>,
    core: Seq<char>,
    after: Seq<char>,
    metrics: Seq<MetricView>,
)
    requires
        forall|i: int| 0 <= i < before.len() ==> crate::text::is_white_space(#[trigger] before[i]),
        forall|i: int| 0 <= i < after.len() ==> crate::text::is_white_space(#[trigger] after[i]),
        core.len() > 0,
        !crate::text::is_white_space(core[0]),
        !crate::text::is_white_space(core.last()),
    ensures
        operand_of(before + core + after, metrics) == operand_of(core, metrics),
{
    crate::text::trimming_takes_the_white_space_around(before, core, after);
    crate::text::trimming_takes_the_white_space_around(Seq::empty(), core, Seq::empty());
    assert(Seq::<char>::empty() + core + Seq::<char>::empty() =~= core);
}

/// A number stands for itself; the name of a metric, unless it is a number, stands for its value;
/// and what is neither and has no sign in it stands for nothing.
pub proof fn an_operand_is_a_number_or_a_metric(expr: Seq<char>, metrics: Seq<MetricView>)
    requires
        expr.len() > 0,
        !crate::text::is_white_space(expr[0]),
        !crate::text::is_white_space(expr.last()),
    ensures
        crate::number::is_float_literal(expr) ==> operand_of(expr, metrics) == Some(
            OperandView::Value(QuantityView::Scaled { digits: expr, factor: 1 }),
        ),
        !crate::number::is_float_literal(expr) ==> (metric_value(metrics, expr) matches Some(value)
            ==> operand_of(expr, metrics) == Some(OperandView::Value(value))),
        !crate::number::is_float_literal(expr) && metric_value(metrics, expr) is None
            && !crate::text::contains_text(expr, " - "@) && !crate::text::contains_text(
            expr,
            " + "@,
        ) && !crate::text::contains_text(expr, " * "@) ==> operand_of(expr, metrics) is None,
{
    crate::text::trimming_takes_the_white_space_around(Seq::empty(), expr, Seq::empty());
    assert(Seq::<char>::empty() + expr + Seq::<char>::empty() =~= expr);
    crate::text::lemma_contains_is_first(expr, " - "@);
    crate::text::lemma_contains_is_first(expr, " + "@);
    crate::text::lemma_contains_is_first(expr, " * "@);
}

/// The sides of a sign that is not written sooner are what stands before it and behind it.
proof fn lemma_sides(a: Seq<char>, sign: Seq<char>, b: Seq<char>)
    requires
        forall|i: int|
            0 <= i < a.len() ==> !#[trigger] crate::text::occurs_at(a + sign + b, sign, i),
    ensures
        sides(a + sign + b, sign) == Some((a, b)),
{
    let e = a + sign + b;
    let k = a.len() as int;
    assert(e.subrange(k, k + sign.len()) =~= sign);
    assert(crate::text::occurs_at(e, sign, k));
    crate::text::lemma_first_from(e, sign, 0);
    assert(e.take(k) =~= a);
    assert(e.skip(k + sign.len()) =~= b);
}

/// An expression that is neither a number nor a metric is a difference where it has a ` - `; without
/// one a sum where it has a ` + `; and without that a product where it has a ` * `. It is taken apart
/// at the first such sign, and stands for something exactly if both sides do.
pub proof fn an_operand_is_taken_apart_at_its_first_sign(
    a: Seq<char>,
    sign: Seq<char>,
    b: Seq<char>,
    metrics: Seq<MetricView>,
)
    requires
        a.len() > 0,
        b.len() > 0,
        !crate::text::is_white_space(a[0]),
        !crate::text::is_white_space(b.last()),
        sign == " - "@ || sign == " + "@ || sign == " * "@,
        forall|i: int|
            0 <= i < a.len() ==> !#[trigger] crate::text::occurs_at(a + sign + b, sign, i),
        sign != " - "@ ==> !crate::text::contains_text(a + sign + b, " - "@),
        sign == " * "@ ==> !crate::text::contains_text(a + sign + b, " + "@),
        !crate::number::is_float_literal(a + sign + b),
        metric_value(metrics, a + sign + b) is None,
    ensures
        operand_of(a + sign + b, metrics) is Some <==> operand_of(a, metrics) is Some && operand_of(
            b,
            metrics,
        ) is Some,
        operand_of(a + sign + b, metrics) matches Some(operand) ==> {
            let x = Box::new(operand_of(a, metrics)->0);
            let y = Box::new(operand_of(b, metrics)->0);
            &&& sign == " - "@ ==> operand == OperandView::Difference(x, y)
            &&& sign == " + "@ ==> operand == OperandView::Sum(x, y)
            &&& sign == " * "@ ==> operand == OperandView::Product(x, y)
        },
{
    let e = a + sign + b;
    reveal_strlit(" - ");
    reveal_strlit(" + ");
    reveal_strlit(" * ");
    assert(" - "@[1] != " + "@[1] && " - "@[1] != " * "@[1] && " + "@[1] != " * "@[1]);
    assert(e[0] == a[0] && e.last() == b.last());
    crate::text::trimming_takes_the_white_space_around(Seq::empty(), e, Seq::empty());
    assert(Seq::<char>::empty() + e + Seq::<char>::empty() =~= e);
    lemma_sides(a, sign, b);
    crate::text::lemma_contains_is_first(e, " - "@);
    crate::text::lemma_contains_is_first(e, " + "@);
}

/// A comparison has its left side, its operator and its right side, all of which must be there and
/// make sense.
pub proof fn a_comparison_needs_all_of_its_parts(p: Pattern, metrics: Seq<MetricView>)
    ensures
        comparison_of(p, metrics) is Some <==> {
            &&& p.left matches Some(left) && operand_of(left@, metrics) is Some
            &&& p.operator matches Some(op) && operator_of(op@) is Some
            &&& p.right is Some && operand_of(
                match p.right->0 {
                    crate::schema::Scalar::Num(n) => n@,
                    crate::schema::Scalar::Text(t) => t@,
                },
                metrics,
            ) is Some
        },
        comparison_of(p, metrics) matches Some(c) ==> {
            &&& operand_of(p.left->0@, metrics) == Some(c.left)
            &&& operator_of(p.operator->0@) == Some(c.op)
            &&& operand_of(
                match p.right->0 {
                    crate::schema::Scalar::Num(n) => n@,
                    crate::schema::Scalar::Text(t) => t@,
                },
                metrics,
            ) == Some(c.right)
        },
{
}

/// A field pattern is shown by its parts with a blank between them, those that are missing as empty.
pub proof fn a_comparison_is_shown_by_its_parts(p: Pattern, text: String)
    ensures
        p.left == Some(text) && p.operator is None && p.right is None ==> comparison_text(p)
            == text@ + "  "@,
        p.left is None && p.operator == Some(text) && p.right is None ==> comparison_text(p)
            == " "@ + text@ + " "@,
        p.left is None && p.operator is None && p.right == Some(crate::schema::Scalar::Num(text))
            ==> comparison_text(p) == "  "@ + text@,
        p.left is None && p.operator is None && p.right == Some(crate::schema::Scalar::Text(text))
            ==> comparison_text(p) == "  "@ + text@,
        p.left is Some && p.operator is Some && p.right is Some ==> comparison_text(p)
            == p.left->0@ + " "@ + p.operator->0@ + " "@ + p.right->0.expr(),
{
    reveal_strlit(" ");
    reveal_strlit("  ");
    assert("  "@ =~= " "@ + " "@);
    let none = Seq::<char>::empty();
    assert(text@ + " "@ + none + " "@ + none =~= text@ + "  "@);
    assert(none + " "@ + text@ + " "@ + none =~= " "@ + text@ + " "@);
    assert(none + " "@ + none + " "@ + text@ =~= "  "@ + text@);
}

/// An operand is modelled by its parts.
pub proof fn an_operand_is_its_parts(a: Box<Operand>, b: Box<Operand>, q: Quantity)
    ensures
        Operand::Value(q)@ == OperandView::Value(q@),
        Operand::Difference(a, b)@ == OperandView::Difference(Box::new(a@), Box::new(b@)),
        Operand::Sum(a, b)@ == OperandView::Sum(Box::new(a@), Box::new(b@)),
        Operand::Product(a, b)@ == OperandView::Product(Box::new(a@), Box::new(b@)),
{
}

/// Metrics and comparisons are modelled by their parts.
pub proof fn metrics_and_comparisons_are_their_parts(
    metrics: Seq<Metric>,
    i: int,
    comparison: Comparison,
)
    ensures
        metric_models(metrics).len() == metrics.len(),
        0 <= i < metrics.len() ==> metric_models(metrics)[i].name == metrics[i].name@
            && metric_models(metrics)[i].value == metrics[i].value@,
        comparison@.left == comparison.left@,
        comparison@.op == comparison.op,
        comparison@.right == comparison.right@,
{
}

} // verus!
