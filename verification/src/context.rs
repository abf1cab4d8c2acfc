//! The findings of the engine as a passage for the prompt of an agent: first what the rules have
//! confirmed, then the clauses that no rule has hit.

use crate::number::decimal;
use crate::outside::to_uppercase;
use crate::schema::{Clause, ParsedDocument, RuleMatch};
use crate::text::{same_text, take_chars};
use vstd::prelude::*;

verus! {

/// How many clauses are listed for a closer look.
pub const PENDING_LIMIT: usize = 10;

/// A finding as it is listed, given its severity in upper case.
pub open spec fn entry_with(m: crate::schema::RuleMatchView, upper: Seq<char>) -> Seq<char> {
    "- ["@ + upper + "] "@ + m.category + " ("@ + m.rule_id
        + "): "@ + m.matched_text + "\n  依据: "@ + m.law_ref + "\n  建议: "@ + m.suggestion
        + "\n"@
}

/// A finding as it is listed.
pub open spec fn finding_entry(m: crate::schema::RuleMatchView) -> Seq<char> {
    entry_with(m, crate::outside::upper_case(m.severity))
}

/// The findings as they are listed.
pub open spec fn finding_entries(list: Seq<crate::schema::RuleMatchView>) -> Seq<char>
    decreases list.len(),
{
    if list.len() == 0 {
        Seq::empty()
    } else {
        finding_entries(list.drop_last()) + finding_entry(list.last())
    }
}

/// The findings that are critical.
pub open spec fn critical_findings(list: Seq<crate::schema::RuleMatchView>) -> Seq<
    crate::schema::RuleMatchView,
> {
    list.filter(|m: crate::schema::RuleMatchView| m.severity == "critical"@)
}

/// Whether a finding points at the clause with that id.
pub open spec fn is_hit(list: Seq<crate::schema::RuleMatchView>, id: Seq<char>) -> bool {
    exists|i: int| 0 <= i < list.len() && (#[trigger] list[i]).clause_id == id
}

/// The first clauses that no finding points at.
pub open spec fn pending_clauses(
    list: Seq<crate::schema::RuleMatchView>,
    clauses: Seq<crate::schema::ClauseView>,
) -> Seq<crate::schema::ClauseView> {
    let open = clauses.filter(|c: crate::schema::ClauseView| !is_hit(list, c.id));
    if open.len() <= PENDING_LIMIT {
        open
    } else {
        open.take(PENDING_LIMIT as int)
    }
}

/// A clause as it is listed.
pub open spec fn clause_entry(c: crate::schema::ClauseView) -> Seq<char> {
    "- 第 "@ + crate::number::decimal_text(c.page as nat) + " 页 "@ + c.id + ": "@
        + crate::text::first_chars(c.text, 60) + "...\n"@
}

/// The clauses as they are listed.
pub open spec fn clause_entries(list: Seq<crate::schema::ClauseView>) -> Seq<char>
    decreases list.len(),
{
    if list.len() == 0 {
        Seq::empty()
    } else {
        clause_entries(list.drop_last()) + clause_entry(list.last())
    }
}

/// The passage for the prompt.
pub open spec fn context_text(
    list: Seq<crate::schema::RuleMatchView>,
    clauses: Seq<crate::schema::ClauseView>,
) -> Seq<char> {
    "## 初审结果（规则引擎自动检测）\n\n"@ + "已标记 "@ + crate::number::decimal_text(list.len())
        + " 个问题（critical: "@ + crate::number::decimal_text(critical_findings(list).len())
        + "）。以下问题已由确定性规则确认，可直接引用到审核报告：\n\n"@ + finding_entries(list)
        + "\n## 需要深度语义审查的条款\n\n"@ + clause_entries(pending_clauses(list, clauses))
}

/// Lists a finding, given its severity in upper case.
pub fn push_finding(text: &mut String, m: &RuleMatch, upper: &str)
    ensures
        final(text)@ == old(text)@ + entry_with(m@, upper@),
{
    text.append("- [");
    text.append(upper);
    text.append("] ");
    text.append(m.category.as_str());
    text.append(" (");
    text.append(m.rule_id.as_str());
    text.append("): ");
    text.append(m.matched_text.as_str());
    text.append("\n  依据: ");
    text.append(m.law_ref.as_str());
    text.append("\n  建议: ");
    text.append(m.suggestion.as_str());
    text.append("\n");
    assert(text@ == old(text)@ + entry_with(m@, upper@));
}

/// Lists a clause.
fn push_clause(text: &mut String, c: &Clause)
    ensures
        final(text)@ == old(text)@ + clause_entry(c@),
{
    let page = decimal(c.page as u64);
    let start = take_chars(c.text.as_str(), 60);
    text.append("- 第 ");
    text.append(page.as_str());
    text.append(" 页 ");
    text.append(c.id.as_str());
    text.append(": ");
    text.append(start.as_str());
    text.append("...\n");
    assert(text@ == old(text)@ + clause_entry(c@));
}

/// How many findings are critical.
pub fn count_critical(matches: &[RuleMatch]) -> (count: usize)
    ensures
        count == critical_findings(crate::schema::findings(matches@)).len(),
{
    let ghost all = crate::schema::findings(matches@);
    let ghost keep = |m: crate::schema::RuleMatchView| m.severity == "critical"@;
    let mut count: usize = 0;
    let mut i: usize = 0;
    assert(critical_findings(all.take(0)).len() == 0) by {
        reveal(Seq::filter);
    }
    while i < matches.len()
        invariant
            i <= matches@.len(),
            all == crate::schema::findings(matches@),
            keep == (|m: crate::schema::RuleMatchView| m.severity == "critical"@),
            count <= i,
            count == all.take(i as int).filter(keep).len(),
        decreases matches.len() - i,
    {
        assert(all[i as int] == matches@[i as int]@);
        proof {
            crate::lists::lemma_filter_step(all, i as int, keep);
        }
        if same_text(matches[i].severity.as_str(), "critical") {
            count = count + 1;
        }
        i = i + 1;
    }
    assert(all.take(i as int) == all);
    count
}

/// Whether a finding points at the clause with that id.
fn hit_by(matches: &[RuleMatch], id: &str) -> (hit: bool)
    ensures
        hit == is_hit(crate::schema::findings(matches@), id@),
{
    let ghost all = crate::schema::findings(matches@);
    let mut i: usize = 0;
    while i < matches.len()
        invariant
            i <= matches@.len(),
            all == crate::schema::findings(matches@),
            forall|k: int| 0 <= k < i ==> (#[trigger] all[k]).clause_id != id@,
        decreases matches.len() - i,
    {
        if same_text(matches[i].clause_id.as_str(), id) {
            assert(all[i as int].clause_id == id@);
            return true;
        }
        i = i + 1;
    }
    false
}

/// Lists the first clauses that no finding points at.
fn push_pending(text: &mut String, matches: &[RuleMatch], clauses: &Vec<Clause>)
    ensures
        final(text)@ == old(text)@ + clause_entries(
            pending_clauses(
                crate::schema::findings(matches@),
                clauses@.map_values(|c: Clause| c@),
            ),
        ),
{
    let ghost list = crate::schema::findings(matches@);
    let ghost all = clauses@.map_values(|c: Clause| c@);
    let ghost keep = |c: crate::schema::ClauseView| !is_hit(list, c.id);
    let ghost before = text@;
    let mut count: usize = 0;
    let mut i: usize = 0;
    assert(all.take(0).filter(keep) == Seq::<crate::schema::ClauseView>::empty()) by {
        reveal(Seq::filter);
    }
    assert(text@ == before + clause_entries(all.take(0).filter(keep)));
    while i < clauses.len() && count < PENDING_LIMIT
        invariant
            i <= clauses.len(),
            list == crate::schema::findings(matches@),
            all == clauses@.map_values(|c: Clause| c@),
            keep == (|c: crate::schema::ClauseView| !is_hit(list, c.id)),
            count <= PENDING_LIMIT,
            count == all.take(i as int).filter(keep).len(),
            text@ == before + clause_entries(all.take(i as int).filter(keep)),
        decreases clauses.len() - i,
    {
        let c = &clauses[i];
        assert(all[i as int] == c@);
        let ghost kept = all.take(i as int).filter(keep);
        proof {
            crate::lists::lemma_filter_step(all, i as int, keep);
        }
        if !hit_by(matches, c.id.as_str()) {
            push_clause(text, c);
            count = count + 1;
            assert(kept.push(c@).drop_last() == kept);
            assert(text@ == before + clause_entries(kept.push(c@)));
        }
        i = i + 1;
    }
    proof {
        let some = all.take(i as int).filter(keep);
        let rest = all.skip(i as int);
        assert(all.take(i as int) + rest == all);
        Seq::filter_distributes_over_add(all.take(i as int), rest, keep);
        let open = all.filter(keep);
        if i == clauses.len() {
            assert(all.take(i as int) == all);
            if open.len() == PENDING_LIMIT {
                assert(open.take(PENDING_LIMIT as int) == open);
            }
        }
        assert(pending_clauses(list, all) == some);
    }
}

/// The passage for the prompt.
pub fn build_agent_context(matches: &[RuleMatch], doc: &ParsedDocument) -> (text: String)
    ensures
        text@ == context_text(crate::schema::findings(matches@), doc@.clauses),
{
    let ghost all = crate::schema::findings(matches@);
    let count = decimal(matches.len() as u64);
    let criticals = decimal(count_critical(matches) as u64);
    let mut text = "## 初审结果（规则引擎自动检测）\n\n".to_owned();
    text.append("已标记 ");
    text.append(count.as_str());
    text.append(" 个问题（critical: ");
    text.append(criticals.as_str());
    text.append("）。以下问题已由确定性规则确认，可直接引用到审核报告：\n\n");
    let ghost head = text@;
    let mut i: usize = 0;
    assert(text@ == head + finding_entries(all.take(0)));
    while i < matches.len()
        invariant
            i <= matches@.len(),
            all == crate::schema::findings(matches@),
            text@ == head + finding_entries(all.take(i as int)),
        decreases matches.len() - i,
    {
        let upper = to_uppercase(matches[i].severity.as_str());
        push_finding(&mut text, &matches[i], upper.as_str());
        assert(all.take(i + 1).drop_last() == all.take(i as int));
        assert(all.take(i + 1).last() == matches@[i as int]@);
        assert(text@ == head + finding_entries(all.take(i + 1)));
        i = i + 1;
    }
    assert(all.take(i as int) == all);
    text.append("\n## 需要深度语义审查的条款\n\n");
    push_pending(&mut text, matches, &doc.clauses);
    assert(text@ == context_text(all, doc@.clauses));
    text
}

// ── Laws ──

/// A clause that a finding points at is not listed for a closer look, and at most ten are.
pub proof fn a_hit_clause_is_not_pending(
    list: Seq<crate::schema::RuleMatchView>,
    clauses: Seq<crate::schema::ClauseView>,
    i: int,
)
    requires
        0 <= i < pending_clauses(list, clauses).len(),
    ensures
        pending_clauses(list, clauses).len() <= 10,
        clauses.contains(pending_clauses(list, clauses)[i]),
        !is_hit(list, pending_clauses(list, clauses)[i].id),
{
    let keep = |c: crate::schema::ClauseView| !is_hit(list, c.id);
    broadcast use vstd::seq_lib::group_filter_ensures;

    let open = clauses.filter(keep);
    assert(keep(open[i]));
    assert(open.contains(open[i]));
    clauses.lemma_filter_contains_rev(keep, open[i]);
}

/// Without findings the first ten clauses are listed.
pub proof fn without_findings_all_clauses_are_pending(clauses: Seq<crate::schema::ClauseView>)
    ensures
        pending_clauses(Seq::empty(), clauses) == (if clauses.len() <= 10 {
            clauses
        } else {
            clauses.take(10)
        }),
{
    let keep = |c: crate::schema::ClauseView|
        !is_hit(Seq::<crate::schema::RuleMatchView>::empty(), c.id);
    crate::lists::lemma_filter_keeps_all(clauses, keep);
}

/// Findings are listed one after the other, whatever their severity: one more finding adds its
/// entry, which shows its severity in upper case, its category, its rule, the text that was found,
/// the law and the suggestion.
pub proof fn every_finding_adds_its_entry(
    list: Seq<crate::schema::RuleMatchView>,
    m: crate::schema::RuleMatchView,
)
    ensures
        finding_entries(Seq::empty()) == Seq::<char>::empty(),
        finding_entries(list.push(m)) == finding_entries(list) + ("- ["@
            + crate::outside::upper_case(m.severity) + "] "@ + m.category + " ("@ + m.rule_id
            + "): "@ + m.matched_text + "\n  依据: "@ + m.law_ref + "\n  建议: "@ + m.suggestion
            + "\n"@),
{
    assert(list.push(m).drop_last() =~= list);
    assert(list.push(m).last() == m);
}

/// The entry of each finding stands among those of all.
proof fn lemma_entry_is_listed(list: Seq<crate::schema::RuleMatchView>, i: int)
    requires
        0 <= i < list.len(),
    ensures
        crate::text::contains_text(finding_entries(list), finding_entry(list[i])),
    decreases list.len(),
{
    let rest = list.drop_last();
    let (a, b) = (finding_entries(rest), finding_entry(list.last()));
    let empty = Seq::<char>::empty();
    if i < rest.len() {
        lemma_entry_is_listed(rest, i);
        crate::text::a_longer_text_contains_no_less(empty, a, b, finding_entry(list[i]));
        assert(empty + a + b =~= a + b);
    } else {
        crate::text::a_written_word_is_contained(a, b, empty);
        assert(a + b + empty =~= a + b);
    }
}

/// The passage for the prompt lists every finding, whatever its severity.
pub proof fn every_finding_is_listed(
    list: Seq<crate::schema::RuleMatchView>,
    clauses: Seq<crate::schema::ClauseView>,
    i: int,
)
    requires
        0 <= i < list.len(),
    ensures
        crate::text::contains_text(
            context_text(list, clauses),
            "- ["@ + crate::outside::upper_case(list[i].severity) + "] "@ + list[i].category
                + " ("@ + list[i].rule_id + "): "@ + list[i].matched_text + "\n  依据: "@
                + list[i].law_ref + "\n  建议: "@ + list[i].suggestion + "\n"@,
        ),
{
    lemma_entry_is_listed(list, i);
    let head = "## 初审结果（规则引擎自动检测）\n\n"@ + "已标记 "@ + crate::number::decimal_text(list.len())
        + " 个问题（critical: "@ + crate::number::decimal_text(critical_findings(list).len())
        + "）。以下问题已由确定性规则确认，可直接引用到审核报告：\n\n"@;
    let rest = "\n## 需要深度语义审查的条款\n\n"@ + clause_entries(pending_clauses(list, clauses));
    assert(context_text(list, clauses) =~= head + finding_entries(list) + rest);
    crate::text::a_longer_text_contains_no_less(
        head,
        finding_entries(list),
        rest,
        finding_entry(list[i]),
    );
}

/// The passage begins with the number of the findings and of those that are critical, goes on with
/// the findings, and ends with the clauses that are pending.
pub proof fn the_passage_has_its_parts(
    list: Seq<crate::schema::RuleMatchView>,
    clauses: Seq<crate::schema::ClauseView>,
)
    ensures
        context_text(list, clauses) == "## 初审结果（规则引擎自动检测）\n\n已标记 "@
            + crate::number::decimal_text(list.len()) + " 个问题（critical: "@
            + crate::number::decimal_text(critical_findings(list).len())
            + "）。以下问题已由确定性规则确认，可直接引用到审核报告：\n\n"@ + finding_entries(list)
            + "\n## 需要深度语义审查的条款\n\n"@ + clause_entries(pending_clauses(list, clauses)),
{
    reveal_strlit("## 初审结果（规则引擎自动检测）\n\n");
    reveal_strlit("已标记 ");
    reveal_strlit("## 初审结果（规则引擎自动检测）\n\n已标记 ");
    assert("## 初审结果（规则引擎自动检测）\n\n已标记 "@ =~= "## 初审结果（规则引擎自动检测）\n\n"@ + "已标记 "@);
}

/// One more finding is one more critical finding exactly if its severity is `critical`.
pub proof fn critical_findings_are_counted(
    list: Seq<crate::schema::RuleMatchView>,
    m: crate::schema::RuleMatchView,
)
    ensures
        critical_findings(Seq::empty()).len() == 0,
        critical_findings(list.push(m)).len() == critical_findings(list).len() + (if m.severity
            == "critical"@ {
            1int
        } else {
            0int
        }),
{
    reveal(Seq::filter);
    assert(list.push(m).drop_last() =~= list);
}

/// A further clause is pending exactly if no finding points at it and fewer than ten are pending
/// already. The pending ones keep their order.
pub proof fn a_clause_is_pending_unless_it_is_hit(
    list: Seq<crate::schema::RuleMatchView>,
    clauses: Seq<crate::schema::ClauseView>,
    c: crate::schema::ClauseView,
)
    ensures
        pending_clauses(list, Seq::empty()) == Seq::<crate::schema::ClauseView>::empty(),
        pending_clauses(list, clauses.push(c)) == (if pending_clauses(list, clauses).len() < 10 && (
        forall|i: int| 0 <= i < list.len() ==> (#[trigger] list[i]).clause_id != c.id) {
            pending_clauses(list, clauses).push(c)
        } else {
            pending_clauses(list, clauses)
        }),
{
    let keep = |c: crate::schema::ClauseView| !is_hit(list, c.id);
    reveal(Seq::filter);
    let more = clauses.push(c);
    assert(more.drop_last() =~= clauses);
    let (a, b) = (clauses.filter(keep), more.filter(keep));
    if keep(c) {
        assert(b =~= a.push(c));
        if a.len() == 10 {
            assert(b.take(10) =~= a);
        } else if a.len() > 10 {
            assert(b.take(10) =~= a.take(10));
        }
    } else {
        assert(b =~= a);
    }
}

/// Pending clauses are listed one after the other, each with its page, its id and at most sixty
/// characters of its text.
pub proof fn every_pending_clause_adds_its_entry(
    list: Seq<crate::schema::ClauseView>,
    c: crate::schema::ClauseView,
)
    ensures
        clause_entries(Seq::empty()) == Seq::<char>::empty(),
        clause_entries(list.push(c)) == clause_entries(list) + ("- 第 "@
            + crate::number::decimal_text(c.page as nat) + " 页 "@ + c.id + ": "@ + (
        if c.text.len() <= 60 {
            c.text
        } else {
            c.text.take(60)
        }) + "...\n"@),
{
    assert(list.push(c).drop_last() =~= list);
}

} // verus!
