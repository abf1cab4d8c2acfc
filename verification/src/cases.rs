//! Cases for the rules: texts that a rule must hit and texts that it must not hit, and how the
//! drafts of a model are judged on the whole.

use crate::schema::{Rule, RuleMatch};
use crate::text::{contains, same_text};
use crate::validator::ValidationIssue;
use vstd::prelude::*;

verus! {

/// The cases of a rule.
#[derive(Debug)]
pub struct Case {
    pub rule_id: String,
    pub document_type: String,
    pub chapters: Vec<String>,
    /// Texts that the rule must hit.
    pub positive: Vec<String>,
    /// Texts that the rule must not hit.
    pub negative: Vec<String>,
}

// ── Cases ──

/// Whether a finding is one of the rule with that id.
pub open spec fn rule_is_hit(list: Seq<crate::schema::RuleMatchView>, id: Seq<char>) -> bool {
    exists|i: int| 0 <= i < list.len() && (#[trigger] list[i]).rule_id == id
}

/// Whether a finding is one of the rule with that id.
pub fn hits_rule(matches: &Vec<RuleMatch>, rule_id: &str) -> (hit: bool)
    ensures
        hit == rule_is_hit(crate::schema::findings(matches@), rule_id@),
{
    let ghost all = crate::schema::findings(matches@);
    let mut i: usize = 0;
    while i < matches.len()
        invariant
            i <= matches.len(),
            all == crate::schema::findings(matches@),
            forall|k: int| 0 <= k < i ==> (#[trigger] all[k]).rule_id != rule_id@,
        decreases matches.len() - i,
    {
        if same_text(matches[i].rule_id.as_str(), rule_id) {
            assert(all[i as int].rule_id == rule_id@);
            return true;
        }
        i = i + 1;
    }
    false
}

/// Whether the finding at a place is the first of its rule.
pub fn is_first_of_rule(matches: &Vec<RuleMatch>, place: usize) -> (first: bool)
    requires
        place < matches@.len(),
    ensures
        first == !rule_is_hit(
            crate::schema::findings(matches@).take(place as int),
            matches@[place as int].rule_id@,
        ),
{
    let ghost before = crate::schema::findings(matches@).take(place as int);
    let ghost id = matches@[place as int].rule_id@;
    let mut i: usize = 0;
    while i < place
        invariant
            i <= place < matches@.len(),
            before == crate::schema::findings(matches@).take(place as int),
            id == matches@[place as int].rule_id@,
            forall|k: int| 0 <= k < i ==> (#[trigger] before[k]).rule_id != id,
        decreases place - i,
    {
        if same_text(matches[i].rule_id.as_str(), matches[place].rule_id.as_str()) {
            assert(before[i as int].rule_id == id);
            return false;
        }
        i = i + 1;
    }
    true
}

/// What is said of a text that a rule missed or hit against expectation.
pub open spec fn failure_line(lead: Seq<char>, id: Seq<char>, text: Seq<char>) -> Seq<char> {
    lead + "["@ + id + "] "@ + text
}

/// The failures among the first `n` texts: those whose hit is not as expected.
pub open spec fn failures_among(
    lead: Seq<char>,
    id: Seq<char>,
    texts: Seq<Seq<char>>,
    hits: Seq<bool>,
    expected: bool,
    n: int,
) -> Seq<Seq<char>>
    decreases n,
{
    if n <= 0 {
        Seq::empty()
    } else {
        let before = failures_among(lead, id, texts, hits, expected, n - 1);
        if hits[n - 1] == expected {
            before
        } else {
            before.push(failure_line(lead, id, texts[n - 1]))
        }
    }
}

/// The failures of a case, given which of its texts were hit.
pub open spec fn case_failures(case: Case, positive: Seq<bool>, negative: Seq<bool>) -> Seq<
    Seq<char>,
> {
    failures_among(
        "  正例未命中: "@,
        case.rule_id@,
        crate::text::texts(case.positive@),
        positive,
        true,
        positive.len() as int,
    ) + failures_among(
        "  负例误报: "@,
        case.rule_id@,
        crate::text::texts(case.negative@),
        negative,
        false,
        negative.len() as int,
    )
}

/// The failures among some texts.
fn list_failures(
    lead: &str,
    id: &str,
    texts: &Vec<String>,
    hits: &Vec<bool>,
    expected: bool,
) -> (lines: Vec<String>)
    requires
        hits@.len() == texts@.len(),
    ensures
        crate::text::texts(lines@) == failures_among(
            lead@,
            id@,
            crate::text::texts(texts@),
            hits@,
            expected,
            hits@.len() as int,
        ),
{
    let ghost all = crate::text::texts(texts@);
    let mut lines: Vec<String> = Vec::new();
    let mut i: usize = 0;
    assert(crate::text::texts(lines@) == failures_among(lead@, id@, all, hits@, expected, 0));
    while i < hits.len()
        invariant
            i <= hits.len(),
            hits@.len() == texts@.len(),
            all == crate::text::texts(texts@),
            crate::text::texts(lines@) == failures_among(
                lead@,
                id@,
                all,
                hits@,
                expected,
                i as int,
            ),
        decreases hits.len() - i,
    {
        if hits[i] != expected {
            let mut line = lead.to_owned();
            line.append("[");
            line.append(id);
            line.append("] ");
            line.append(texts[i].as_str());
            let ghost before = lines@;
            assert(line@ == failure_line(lead@, id@, all[i as int]));
            lines.push(line);
            assert(crate::text::texts(lines@) == crate::text::texts(before).push(line@));
        }
        i = i + 1;
    }
    lines
}

/// The failures of a case, given which of its texts were hit.
pub fn judge_case(case: &Case, positive: &Vec<bool>, negative: &Vec<bool>) -> (lines: Vec<String>)
    requires
        positive@.len() == case.positive@.len(),
        negative@.len() == case.negative@.len(),
    ensures
        crate::text::texts(lines@) == case_failures(*case, positive@, negative@),
{
    let mut lines = list_failures(
        "  正例未命中: ",
        case.rule_id.as_str(),
        &case.positive,
        positive,
        true,
    );
    let mut more = list_failures(
        "  负例误报: ",
        case.rule_id.as_str(),
        &case.negative,
        negative,
        false,
    );
    let ghost missed = lines@;
    let ghost wrong = more@;
    lines.append(&mut more);
    assert(crate::text::texts(lines@) == crate::text::texts(missed) + crate::text::texts(wrong));
    lines
}

/// Whether a rule has cases.
pub open spec fn has_cases(cases: Seq<Case>, id: Seq<char>) -> bool {
    exists|i: int| 0 <= i < cases.len() && (#[trigger] cases[i]).rule_id@ == id
}

/// The ids of the rules without cases.
pub fn uncovered_rules(ids: &Vec<&str>, cases: &Vec<Case>) -> (list: Vec<String>)
    ensures
        crate::text::texts(list@) == ids@.map_values(|s: &str| s@).filter(
            |id: Seq<char>| !has_cases(cases@, id),
        ),
{
    let ghost all = ids@.map_values(|s: &str| s@);
    let ghost keep = |id: Seq<char>| !has_cases(cases@, id);
    let mut list: Vec<String> = Vec::new();
    let mut i: usize = 0;
    assert(crate::text::texts(list@) == all.take(0).filter(keep)) by {
        reveal(Seq::filter);
    }
    while i < ids.len()
        invariant
            i <= ids.len(),
            all == ids@.map_values(|s: &str| s@),
            keep == (|id: Seq<char>| !has_cases(cases@, id)),
            crate::text::texts(list@) == all.take(i as int).filter(keep),
        decreases ids.len() - i,
    {
        assert(all[i as int] == ids@[i as int]@);
        proof {
            crate::lists::lemma_filter_step(all, i as int, keep);
        }
        if !covers(cases, ids[i]) {
            let id = ids[i].to_owned();
            let ghost before = list@;
            list.push(id);
            assert(crate::text::texts(list@) == crate::text::texts(before).push(id@));
        }
        i = i + 1;
    }
    assert(all.take(i as int) == all);
    list
}

/// Whether a rule has cases.
fn covers(cases: &Vec<Case>, id: &str) -> (hit: bool)
    ensures
        hit == has_cases(cases@, id@),
{
    let mut i: usize = 0;
    while i < cases.len()
        invariant
            i <= cases.len(),
            forall|k: int| 0 <= k < i ==> (#[trigger] cases@[k]).rule_id@ != id@,
        decreases cases.len() - i,
    {
        if same_text(cases[i].rule_id.as_str(), id) {
            assert(cases@[i as int].rule_id@ == id@);
            return true;
        }
        i = i + 1;
    }
    false
}

// ── Drafts ──

/// What a model is asked to make of a rule: its excerpt, or else its suggestion, and its
/// suggestion.
pub open spec fn topic(rule: Rule) -> Seq<char> {
    (match rule.source.excerpt {
        Some(excerpt) => excerpt@,
        None => rule.suggestion@,
    }) + "。合规建议："@ + rule.suggestion@
}

/// What a model is asked to make of a rule.
pub fn topic_of(rule: &Rule) -> (text: String)
    ensures
        text@ == topic(*rule),
{
    let mut text = match &rule.source.excerpt {
        Some(excerpt) => excerpt.clone(),
        None => rule.suggestion.clone(),
    };
    text.append("。合规建议：");
    text.append(rule.suggestion.as_str());
    text
}

/// Whether a message tells of the surroundings, not of the draft: no key, or no answer.
pub open spec fn is_environmental(msg: Seq<char>) -> bool {
    crate::text::contains_text(msg, "401"@) || crate::text::contains_text(msg, "InvalidApiKey"@)
        || crate::text::contains_text(msg, "API 请求失败"@) || crate::text::contains_text(
        msg,
        "LLM API 请求失败"@,
    )
}

/// Whether a message tells of the surroundings, not of the draft.
pub fn is_environment_error(msg: &str) -> (hit: bool)
    ensures
        hit == is_environmental(msg@),
{
    contains(msg, "401") || contains(msg, "InvalidApiKey") || contains(msg, "API 请求失败")
        || contains(msg, "LLM API 请求失败")
}

/// What became of a draft that was asked for.
#[derive(Debug)]
pub enum Outcome {
    Passed,
    /// The draft has issues.
    Failed(Vec<String>),
    /// There is no draft, for a reason.
    Broken(String),
}

/// How many drafts passed, failed and were skipped.
#[derive(Debug)]
pub struct Tally {
    pub passed: usize,
    pub failed: usize,
    pub skipped: usize,
}

/// Whether a draft failed: one that was made and has issues, or one that could not be made for
/// a reason of its own.
pub open spec fn is_failure(outcome: Outcome) -> bool {
    match outcome {
        Outcome::Passed => false,
        Outcome::Failed(_) => true,
        Outcome::Broken(msg) => !is_environmental(msg@),
    }
}

/// Counts one more outcome.
pub fn count_outcome(tally: &mut Tally, outcome: &Outcome)
    requires
        old(tally).passed < usize::MAX,
        old(tally).failed < usize::MAX,
        old(tally).skipped < usize::MAX,
    ensures
        final(tally).passed == old(tally).passed + (if *outcome is Passed {
            1int
        } else {
            0int
        }),
        final(tally).failed == old(tally).failed + (if is_failure(*outcome) {
            1int
        } else {
            0int
        }),
        final(tally).skipped == old(tally).skipped + (if *outcome is Passed || is_failure(
            *outcome,
        ) {
            0int
        } else {
            1int
        }),
{
    match outcome {
        Outcome::Passed => {
            tally.passed = tally.passed + 1;
        },
        Outcome::Failed(_) => {
            tally.failed = tally.failed + 1;
        },
        Outcome::Broken(msg) => {
            if is_environment_error(msg.as_str()) {
                tally.skipped = tally.skipped + 1;
            } else {
                tally.failed = tally.failed + 1;
            }
        },
    }
}

/// Whether more than four fifths of the drafts that count have passed.
pub fn above_threshold(passed: usize, total: usize) -> (hit: bool)
    ensures
        hit == (total > 0 && passed * 5 > total * 4),
{
    total > 0 && passed as u128 * 5 > total as u128 * 4
}

// ── Reports ──

/// The places of the issues with a field, among the first `n`.
pub open spec fn places_with_field(
    list: Seq<crate::validator::IssueView>,
    field: Seq<char>,
    n: int,
) -> Seq<int>
    decreases n,
{
    if n <= 0 {
        Seq::empty()
    } else {
        let before = places_with_field(list, field, n - 1);
        if list[n - 1].field == field {
            before.push(n - 1)
        } else {
            before
        }
    }
}

/// The fields of the first `n` issues, each once, in the order in which they come up.
pub open spec fn fields_in(list: Seq<crate::validator::IssueView>, n: int) -> Seq<Seq<char>>
    decreases n,
{
    if n <= 0 {
        Seq::empty()
    } else {
        let before = fields_in(list, n - 1);
        if before.contains(list[n - 1].field) {
            before
        } else {
            before.push(list[n - 1].field)
        }
    }
}

/// The issues of one field.
pub struct FieldGroup {
    pub field: &'static str,
    /// The places of the issues in the report.
    pub places: Vec<usize>,
}

/// Whether some groups are those of the first `n` issues.
pub open spec fn are_groups(
    groups: Seq<FieldGroup>,
    list: Seq<crate::validator::IssueView>,
    n: int,
) -> bool {
    &&& groups.map_values(|g: FieldGroup| g.field@) == fields_in(list, n)
    &&& forall|g: int|
        0 <= g < groups.len() ==> crate::review::place_numbers((#[trigger] groups[g]).places@)
            == places_with_field(list, groups[g].field@, n)
}

/// A field that has not come up has no places.
proof fn lemma_new_field(list: Seq<crate::validator::IssueView>, field: Seq<char>, n: int)
    requires
        !fields_in(list, n).contains(field),
    ensures
        places_with_field(list, field, n) == Seq::<int>::empty(),
    decreases n,
{
    if n > 0 {
        let before = fields_in(list, n - 1);
        let now = fields_in(list, n);
        if before.contains(field) {
            let i = choose|i: int| 0 <= i < before.len() && before[i] == field;
            assert(now[i] == field);
        }
        lemma_new_field(list, field, n - 1);
        if list[n - 1].field == field {
            assert(now.last() == field);
        }
    }
}

/// No field comes up twice.
proof fn lemma_fields_differ(list: Seq<crate::validator::IssueView>, n: int, i: int, j: int)
    requires
        0 <= i < j < fields_in(list, n).len(),
    ensures
        fields_in(list, n)[i] != fields_in(list, n)[j],
    decreases n,
{
    let before = fields_in(list, n - 1);
    if j < before.len() {
        lemma_fields_differ(list, n - 1, i, j);
    } else {
        assert(before[i] == fields_in(list, n)[i]);
    }
}

/// The place of a field among some groups.
fn find_group(groups: &Vec<FieldGroup>, field: &str) -> (found: Option<usize>)
    ensures
        match found {
            Some(g) => g < groups@.len() && groups@[g as int].field@ == field@,
            None => forall|k: int|
                0 <= k < groups@.len() ==> (#[trigger] groups@[k]).field@ != field@,
        },
{
    let mut g: usize = 0;
    while g < groups.len()
        invariant
            g <= groups.len(),
            forall|k: int| 0 <= k < g ==> (#[trigger] groups@[k]).field@ != field@,
        decreases groups.len() - g,
    {
        if same_text(groups[g].field, field) {
            return Some(g);
        }
        g = g + 1;
    }
    None
}

/// Adds an issue to the group of its field.
fn add_to_groups(groups: &mut Vec<FieldGroup>, issues: &Vec<ValidationIssue>, i: usize)
    requires
        i < issues@.len(),
        are_groups(old(groups)@, crate::validator::issue_views(issues@), i as int),
    ensures
        are_groups(final(groups)@, crate::validator::issue_views(issues@), i + 1),
{
    let ghost list = crate::validator::issue_views(issues@);
    let ghost before = groups@;
    let field = issues[i].field;
    assert(list[i as int].field == field@);
    let ghost names = before.map_values(|g: FieldGroup| g.field@);
    match find_group(groups, field) {
        Some(g) => {
            let ghost given = before[g as int].places@;
            let mut places: Vec<usize> = Vec::new();
            let mut k: usize = 0;
            while k < groups[g].places.len()
                invariant
                    g < groups.len(),
                    groups@ == before,
                    given == before[g as int].places@,
                    k <= given.len(),
                    places@ == given.take(k as int),
                decreases given.len() - k,
            {
                places.push(groups[g].places[k]);
                assert(given.take(k + 1) == given.take(k as int).push(given[k as int]));
                k = k + 1;
            }
            assert(given.take(k as int) == given);
            places.push(i);
            assert(crate::review::place_numbers(places@) == crate::review::place_numbers(
                given,
            ).push(i as int));
            groups.set(g, FieldGroup { field, places });
            proof {
                assert(names[g as int] == field@);
                assert(fields_in(list, i + 1) == fields_in(list, i as int));
                assert(groups@.map_values(|g: FieldGroup| g.field@) == names);
                assert forall|q: int| 0 <= q < groups@.len() implies crate::review::place_numbers(
                    (#[trigger] groups@[q]).places@,
                ) == places_with_field(list, groups@[q].field@, i + 1) by {
                    assert(before[q].field@ == names[q]);
                    if q != g {
                        assert(groups@[q] == before[q]);
                        if q < g {
                            lemma_fields_differ(list, i as int, q, g as int);
                        } else {
                            lemma_fields_differ(list, i as int, g as int, q);
                        }
                    }
                }
            }
        },
        None => {
            let mut places: Vec<usize> = Vec::new();
            places.push(i);
            proof {
                assert(!names.contains(field@)) by {
                    if names.contains(field@) {
                        let k = choose|k: int| 0 <= k < names.len() && names[k] == field@;
                        assert(before[k].field@ == field@);
                    }
                }
                lemma_new_field(list, field@, i as int);
            }
            assert(crate::review::place_numbers(places@) == seq![i as int]);
            groups.push(FieldGroup { field, places });
            proof {
                assert(groups@.map_values(|g: FieldGroup| g.field@) == names.push(field@));
                assert forall|q: int| 0 <= q < groups@.len() implies crate::review::place_numbers(
                    (#[trigger] groups@[q]).places@,
                ) == places_with_field(list, groups@[q].field@, i + 1) by {
                    if q < before.len() {
                        assert(groups@[q] == before[q]);
                        assert(before[q].field@ != field@);
                    }
                }
            }
        },
    }
}

/// The issues of a report, field by field, in the order in which the fields come up.
pub fn group_issues(issues: &Vec<ValidationIssue>) -> (groups: Vec<FieldGroup>)
    ensures
        are_groups(
            groups@,
            crate::validator::issue_views(issues@),
            issues@.len() as int,
        ),
{
    let mut groups: Vec<FieldGroup> = Vec::new();
    let mut i: usize = 0;
    assert(groups@.map_values(|g: FieldGroup| g.field@) == Seq::<Seq<char>>::empty());
    while i < issues.len()
        invariant
            i <= issues.len(),
            are_groups(groups@, crate::validator::issue_views(issues@), i as int),
        decreases issues.len() - i,
    {
        add_to_groups(&mut groups, issues, i);
        i = i + 1;
    }
    groups
}

// ── Laws ──

/// There are no failures among some texts exactly if each was hit as expected.
proof fn lemma_no_failures(
    lead: Seq<char>,
    id: Seq<char>,
    texts: Seq<Seq<char>>,
    hits: Seq<bool>,
    expected: bool,
    n: int,
)
    requires
        0 <= n <= hits.len(),
    ensures
        failures_among(lead, id, texts, hits, expected, n).len() == 0 <==> forall|i: int|
            0 <= i < n ==> #[trigger] hits[i] == expected,
    decreases n,
{
    if n > 0 {
        lemma_no_failures(lead, id, texts, hits, expected, n - 1);
        if failures_among(lead, id, texts, hits, expected, n).len() == 0 {
            assert forall|i: int| 0 <= i < n implies #[trigger] hits[i] == expected by {
                if i == n - 1 {
                    assert(hits[n - 1] == expected);
                }
            }
        } else if hits[n - 1] == expected {
            assert(failures_among(lead, id, texts, hits, expected, n - 1).len() > 0);
        } else {
            assert(hits[n - 1] != expected);
        }
    }
}

/// A case has no failures exactly if every text that the rule must hit was hit and no other was.
pub proof fn a_case_passes_exactly_as_expected(
    case: Case,
    positive: Seq<bool>,
    negative: Seq<bool>,
)
    ensures
        case_failures(case, positive, negative).len() == 0 <==> (forall|i: int|
            0 <= i < positive.len() ==> #[trigger] positive[i]) && (forall|i: int|
            0 <= i < negative.len() ==> !#[trigger] negative[i]),
{
    lemma_no_failures(
        "  正例未命中: "@,
        case.rule_id@,
        crate::text::texts(case.positive@),
        positive,
        true,
        positive.len() as int,
    );
    lemma_no_failures(
        "  负例误报: "@,
        case.rule_id@,
        crate::text::texts(case.negative@),
        negative,
        false,
        negative.len() as int,
    );
}

/// The failures among the first texts do not depend on the others.
proof fn lemma_failures_of_prefix(
    lead: Seq<char>,
    id: Seq<char>,
    texts: Seq<Seq<char>>,
    hits: Seq<bool>,
    text: Seq<char>,
    hit: bool,
    expected: bool,
    n: int,
)
    requires
        n <= texts.len(),
        n <= hits.len(),
    ensures
        failures_among(lead, id, texts.push(text), hits.push(hit), expected, n) == failures_among(
            lead,
            id,
            texts,
            hits,
            expected,
            n,
        ),
    decreases n,
{
    if n > 0 {
        lemma_failures_of_prefix(lead, id, texts, hits, text, hit, expected, n - 1);
    }
}

/// Texts are judged one by one: one more adds a line, with the id in brackets and the whole text,
/// exactly if its hit is not as expected.
pub proof fn texts_are_judged_one_by_one(
    lead: Seq<char>,
    id: Seq<char>,
    texts: Seq<Seq<char>>,
    hits: Seq<bool>,
    text: Seq<char>,
    hit: bool,
    expected: bool,
)
    requires
        texts.len() == hits.len(),
    ensures
        failures_among(
            lead,
            id,
            texts.push(text),
            hits.push(hit),
            expected,
            hits.len() as int + 1,
        ) == (if hit != expected {
            failures_among(lead, id, texts, hits, expected, hits.len() as int).push(
                lead + "["@ + id + "] "@ + text,
            )
        } else {
            failures_among(lead, id, texts, hits, expected, hits.len() as int)
        }),
        failures_among(lead, id, Seq::empty(), Seq::empty(), expected, 0).len() == 0,
{
    lemma_failures_of_prefix(lead, id, texts, hits, text, hit, expected, hits.len() as int);
}

/// A text that was not hit as expected is among the failures.
proof fn lemma_is_failure(
    lead: Seq<char>,
    id: Seq<char>,
    texts: Seq<Seq<char>>,
    hits: Seq<bool>,
    expected: bool,
    n: int,
    i: int,
)
    requires
        0 <= i < n <= hits.len(),
        hits[i] != expected,
    ensures
        failures_among(lead, id, texts, hits, expected, n).contains(
            lead + "["@ + id + "] "@ + texts[i],
        ),
    decreases n,
{
    let line = lead + "["@ + id + "] "@ + texts[i];
    let before = failures_among(lead, id, texts, hits, expected, n - 1);
    let all = failures_among(lead, id, texts, hits, expected, n);
    if i < n - 1 {
        lemma_is_failure(lead, id, texts, hits, expected, n - 1, i);
        let k = choose|k: int| 0 <= k < before.len() && before[k] == line;
        assert(all[k] == line);
    } else {
        assert(all[before.len() as int] == line);
    }
}

/// Every text that a rule must hit and missed, and every text that it must not hit and hit, is told
/// with what went wrong, the id of the rule and the text.
pub proof fn every_failure_of_a_case_is_told(
    case: Case,
    positive: Seq<bool>,
    negative: Seq<bool>,
    i: int,
)
    requires
        positive.len() == case.positive@.len(),
        negative.len() == case.negative@.len(),
    ensures
        0 <= i < positive.len() && !positive[i] ==> case_failures(
            case,
            positive,
            negative,
        ).contains("  正例未命中: "@ + "["@ + case.rule_id@ + "] "@ + case.positive@[i]@),
        0 <= i < negative.len() && negative[i] ==> case_failures(
            case,
            positive,
            negative,
        ).contains("  负例误报: "@ + "["@ + case.rule_id@ + "] "@ + case.negative@[i]@),
        case_failures(case, positive, Seq::empty()) + case_failures(case, Seq::empty(), negative)
            == case_failures(case, positive, negative),
{
    let id = case.rule_id@;
    let (wanted, unwanted) = (
        crate::text::texts(case.positive@),
        crate::text::texts(case.negative@),
    );
    let missed = failures_among(
        "  正例未命中: "@,
        id,
        wanted,
        positive,
        true,
        positive.len() as int,
    );
    let wrong = failures_among(
        "  负例误报: "@,
        id,
        unwanted,
        negative,
        false,
        negative.len() as int,
    );
    let all = case_failures(case, positive, negative);
    if 0 <= i < positive.len() && !positive[i] {
        lemma_is_failure(
            "  正例未命中: "@,
            id,
            wanted,
            positive,
            true,
            positive.len() as int,
            i,
        );
        assert(wanted[i] == case.positive@[i]@);
        let line = "  正例未命中: "@ + "["@ + id + "] "@ + wanted[i];
        let k = choose|k: int| 0 <= k < missed.len() && missed[k] == line;
        assert(all[k] == line);
    }
    if 0 <= i < negative.len() && negative[i] {
        lemma_is_failure(
            "  负例误报: "@,
            id,
            unwanted,
            negative,
            false,
            negative.len() as int,
            i,
        );
        assert(unwanted[i] == case.negative@[i]@);
        let line = "  负例误报: "@ + "["@ + id + "] "@ + unwanted[i];
        let k = choose|k: int| 0 <= k < wrong.len() && wrong[k] == line;
        assert(all[missed.len() + k] == line);
    }
    assert(case_failures(case, positive, Seq::empty()) =~= missed);
    assert(case_failures(case, Seq::empty(), negative) =~= wrong);
}

/// A rule is hit by any finding of its id, wherever it stands, and by no other.
pub proof fn any_finding_of_a_rule_hits_it(
    a: Seq<crate::schema::RuleMatchView>,
    b: Seq<crate::schema::RuleMatchView>,
    id: Seq<char>,
)
    ensures
        rule_is_hit(a + b, id) == (rule_is_hit(a, id) || rule_is_hit(b, id)),
        a.len() == 0 ==> !rule_is_hit(a, id),
        a.len() == 1 ==> rule_is_hit(a, id) == (a[0].rule_id == id),
{
    let all = a + b;
    if rule_is_hit(a, id) {
        let i = choose|i: int| 0 <= i < a.len() && (#[trigger] a[i]).rule_id == id;
        assert(all[i].rule_id == id);
    }
    if rule_is_hit(b, id) {
        let i = choose|i: int| 0 <= i < b.len() && (#[trigger] b[i]).rule_id == id;
        assert(all[a.len() + i].rule_id == id);
    }
    if rule_is_hit(all, id) {
        let i = choose|i: int| 0 <= i < all.len() && (#[trigger] all[i]).rule_id == id;
        if i < a.len() {
            assert(a[i].rule_id == id);
        } else {
            assert(b[i - a.len()].rule_id == id);
        }
    }
    if a.len() == 1 && a[0].rule_id == id {
        assert(rule_is_hit(a, id));
    }
}

/// A rule has cases where any case names its whole id.
pub proof fn any_case_of_a_rule_covers_it(a: Seq<Case>, b: Seq<Case>, id: Seq<char>)
    ensures
        has_cases(a + b, id) == (has_cases(a, id) || has_cases(b, id)),
        a.len() == 0 ==> !has_cases(a, id),
        a.len() == 1 ==> has_cases(a, id) == (a[0].rule_id@ == id),
{
    let all = a + b;
    if has_cases(a, id) {
        let i = choose|i: int| 0 <= i < a.len() && (#[trigger] a[i]).rule_id@ == id;
        assert(all[i].rule_id@ == id);
    }
    if has_cases(b, id) {
        let i = choose|i: int| 0 <= i < b.len() && (#[trigger] b[i]).rule_id@ == id;
        assert(all[a.len() + i].rule_id@ == id);
    }
    if has_cases(all, id) {
        let i = choose|i: int| 0 <= i < all.len() && (#[trigger] all[i]).rule_id@ == id;
        if i < a.len() {
            assert(a[i].rule_id@ == id);
        } else {
            assert(b[i - a.len()].rule_id@ == id);
        }
    }
    if a.len() == 1 && a[0].rule_id@ == id {
        assert(has_cases(a, id));
    }
}

/// A draft is asked for by the excerpt of the law and the suggestion, or by the suggestion twice.
pub proof fn a_topic_is_the_excerpt_and_the_suggestion(rule: Rule)
    ensures
        rule.source.excerpt matches Some(excerpt) ==> topic(rule) == excerpt@ + "。合规建议："@
            + rule.suggestion@,
        rule.source.excerpt is None ==> topic(rule) == rule.suggestion@ + "。合规建议："@
            + rule.suggestion@,
{
}

/// A message with one of the known complaints in it, wherever it stands, tells of the surroundings;
/// one without any does not.
pub proof fn known_complaints_tell_of_the_surroundings(
    before: Seq<char>,
    after: Seq<char>,
    msg: Seq<char>,
)
    ensures
        is_environmental(before + "401"@ + after),
        is_environmental(before + "InvalidApiKey"@ + after),
        is_environmental(before + "API 请求失败"@ + after),
        is_environmental(msg) ==> crate::text::contains_text(msg, "401"@)
            || crate::text::contains_text(msg, "InvalidApiKey"@) || crate::text::contains_text(
            msg,
            "API 请求失败"@,
        ),
{
    crate::text::a_written_word_is_contained(before, "401"@, after);
    crate::text::a_written_word_is_contained(before, "InvalidApiKey"@, after);
    crate::text::a_written_word_is_contained(before, "API 请求失败"@, after);
    if crate::text::contains_text(msg, "LLM API 请求失败"@) {
        reveal_strlit("LLM API 请求失败");
        reveal_strlit("API 请求失败");
        let long = "LLM API 请求失败"@;
        let short = "API 请求失败"@;
        let i = choose|i: int| #[trigger] crate::text::occurs_at(msg, long, i);
        assert(long.subrange(4, long.len() as int) =~= short);
        assert(msg.subrange(i + 4, i + 4 + short.len()) =~= msg.subrange(
            i,
            i + long.len(),
        ).subrange(4, long.len() as int));
        assert(crate::text::occurs_at(msg, short, i + 4));
    }
}

/// A draft with issues has failed, and so has one that could not be made, unless the surroundings
/// are to blame; one that passed has not.
pub proof fn a_draft_fails_by_its_own_fault(issues: Vec<String>, reason: String)
    ensures
        !is_failure(Outcome::Passed),
        is_failure(Outcome::Failed(issues)),
        is_failure(Outcome::Broken(reason)) == !is_environmental(reason@),
{
}

/// The places of a field are those of its issues, all of them and no others, from the first to the
/// last.
pub proof fn a_field_has_the_places_of_its_issues(
    list: Seq<crate::validator::IssueView>,
    field: Seq<char>,
    n: int,
)
    requires
        0 <= n <= list.len(),
    ensures
        forall|i: int| #[trigger]
            places_with_field(list, field, n).contains(i) <==> 0 <= i < n && list[i].field == field,
        forall|a: int, b: int|
            0 <= a < b < places_with_field(list, field, n).len() ==> (#[trigger] places_with_field(
                list,
                field,
                n,
            )[a]) < (#[trigger] places_with_field(list, field, n)[b]),
    decreases n,
{
    if n > 0 {
        a_field_has_the_places_of_its_issues(list, field, n - 1);
        let before = places_with_field(list, field, n - 1);
        let all = places_with_field(list, field, n);
        assert forall|i: int| #[trigger] all.contains(i) <==> 0 <= i < n && list[i].field
            == field by {
            if before.contains(i) {
                let k = choose|k: int| 0 <= k < before.len() && before[k] == i;
                assert(all[k] == i);
            }
            if i == n - 1 && list[i].field == field {
                assert(all[before.len() as int] == i);
            }
            if all.contains(i) {
                let k = choose|k: int| 0 <= k < all.len() && all[k] == i;
                if k < before.len() {
                    assert(before[k] == i);
                }
            }
        }
        assert forall|a: int, b: int| 0 <= a < b < all.len() implies (#[trigger] all[a]) < (
        #[trigger] all[b]) by {
            assert(before.contains(before[a]));
            if b < before.len() {
                assert(before[a] < before[b]);
            }
        }
    }
}

/// A field has come up among the first issues exactly if one of them has it.
proof fn lemma_field_came_up(list: Seq<crate::validator::IssueView>, field: Seq<char>, n: int)
    requires
        0 <= n <= list.len(),
    ensures
        fields_in(list, n).contains(field) <==> exists|i: int|
            0 <= i < n && (#[trigger] list[i]).field == field,
    decreases n,
{
    if n > 0 {
        lemma_field_came_up(list, field, n - 1);
        let before = fields_in(list, n - 1);
        let all = fields_in(list, n);
        if before.contains(field) {
            let k = choose|k: int| 0 <= k < before.len() && before[k] == field;
            assert(all[k] == field);
            let i = choose|i: int| 0 <= i < n - 1 && (#[trigger] list[i]).field == field;
            assert(list[i].field == field);
        }
        if list[n - 1].field == field && !before.contains(field) {
            assert(all[before.len() as int] == field);
        }
        if all.contains(field) {
            let k = choose|k: int| 0 <= k < all.len() && all[k] == field;
            if k < before.len() {
                assert(before[k] == field);
            } else {
                assert(list[n - 1].field == field);
            }
        }
    }
}

/// Each field of some issues is listed once, where it first comes up.
pub proof fn fields_are_listed_where_they_come_up(
    list: Seq<crate::validator::IssueView>,
    n: int,
)
    requires
        0 < n <= list.len(),
    ensures
        fields_in(list, 0).len() == 0,
        (exists|i: int| 0 <= i < n - 1 && (#[trigger] list[i]).field == list[n - 1].field)
            ==> fields_in(list, n) == fields_in(list, n - 1),
        !(exists|i: int| 0 <= i < n - 1 && (#[trigger] list[i]).field == list[n - 1].field)
            ==> fields_in(list, n) == fields_in(list, n - 1).push(list[n - 1].field),
{
    lemma_field_came_up(list, list[n - 1].field, n - 1);
}

/// The groups of a report are one for each field, with all the issues of that field.
pub proof fn every_issue_stands_in_the_group_of_its_field(
    groups: Seq<FieldGroup>,
    list: Seq<crate::validator::IssueView>,
    i: int,
)
    requires
        are_groups(groups, list, list.len() as int),
        0 <= i < list.len(),
    ensures
        exists|g: int|
            0 <= g < groups.len() && (#[trigger] groups[g]).field@ == list[i].field
                && crate::review::place_numbers(groups[g].places@).contains(i),
        forall|g: int, h: int|
            0 <= g < h < groups.len() ==> (#[trigger] groups[g]).field@ != (
            #[trigger] groups[h]).field@,
{
    let n = list.len() as int;
    let fields = fields_in(list, n);
    let names = groups.map_values(|g: FieldGroup| g.field@);
    lemma_field_came_up(list, list[i].field, n);
    assert(fields.contains(list[i].field));
    let g = choose|g: int| 0 <= g < fields.len() && fields[g] == list[i].field;
    assert(names[g] == groups[g].field@);
    a_field_has_the_places_of_its_issues(list, list[i].field, n);
    assert(places_with_field(list, list[i].field, n).contains(i));
    assert forall|g: int, h: int| 0 <= g < h < groups.len() implies (
    #[trigger] groups[g]).field@ != (#[trigger] groups[h]).field@ by {
        assert(names[g] == groups[g].field@ && names[h] == groups[h].field@);
        lemma_fields_differ(list, n, g, h);
    }
}

} // verus!
