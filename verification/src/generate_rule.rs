//! Drafting a rule with a language model: what the model is asked, how the draft is taken out of
//! its reply, and what becomes of the draft. A draft is kept only if it passes the static checks.

use crate::number::decimal;
use crate::schema::Rule;
use crate::text::{chars_of, cut, drop_leading, drop_trailing, find, starts_with, trim};
use crate::validator::{RuleValidator, ValidationIssue, ValidationReport};
use vstd::prelude::*;

verus! {

/// What a draft is asked for.
#[derive(Debug)]
pub struct GenerateRuleArgs {
    /// A sample clause, or the risk that the rule is to catch.
    pub topic: String,
    /// The law that the rule rests on.
    pub law: Option<String>,
    /// The article of the law.
    pub article: Option<String>,
}

/// What a client asks for.
#[derive(Debug)]
pub struct GenerateRuleRequest {
    pub topic: String,
    pub law: Option<String>,
    pub article: Option<String>,
}

/// What a draft is asked for by a client.
pub fn args_of(req: GenerateRuleRequest) -> (args: GenerateRuleArgs)
    ensures
        args.topic == req.topic,
        args.law == req.law,
        args.article == req.article,
{
    GenerateRuleArgs { topic: req.topic, law: req.law, article: req.article }
}

/// The drafting tool, by the directory that takes the drafts.
#[derive(Debug)]
pub struct GenerateRuleTool {
    pub drafts_dir: String,
}

/// What became of a draft.
#[derive(Debug)]
pub struct GenerateRuleResult {
    pub rule_id: String,
    pub yaml: String,
    /// Whether the draft passed the static checks.
    pub passed: bool,
    /// What is wrong with the draft.
    pub issues: Vec<String>,
    /// The file that the draft was written to; there is one only if it passed.
    pub draft_path: Option<String>,
}

// ── The question ──

/// An article without the `第` in front of it and the `条` behind it.
pub open spec fn bare_article(article: Seq<char>) -> Seq<char> {
    crate::text::without_trailing(
        crate::text::without_leading(article, |c: char| c == '第'),
        |c: char| c == '条',
    )
}

/// What the model is asked.
pub open spec fn question(args: GenerateRuleArgs) -> Seq<char> {
    "条款样本/主题：\n"@ + args.topic@ + "\n"@ + (match args.law {
        Some(law) => "\n法律依据："@ + law@,
        None => Seq::empty(),
    }) + (match args.article {
        Some(article) => " 第"@ + bare_article(article@) + "条"@,
        None => Seq::empty(),
    })
}

/// What the model is asked.
pub fn user_content(args: &GenerateRuleArgs) -> (text: String)
    ensures
        text@ == question(*args),
{
    let mut text = "条款样本/主题：\n".to_owned();
    text.append(args.topic.as_str());
    text.append("\n");
    if let Some(law) = &args.law {
        text.append("\n法律依据：");
        text.append(law.as_str());
    }
    if let Some(article) = &args.article {
        let rest = drop_leading(article.as_str(), '第');
        let bare = drop_trailing(rest.as_str(), '条');
        text.append(" 第");
        text.append(bare.as_str());
        text.append("条");
    }
    assert(text@ == question(*args));
    text
}

// ── The reply ──

/// The text of a reply: its content, or else its thought.
pub open spec fn reply(content: Option<String>, thought: Option<String>) -> Seq<char> {
    match content {
        Some(c) => c@,
        None => match thought {
            Some(t) => t@,
            None => Seq::empty(),
        },
    }
}

/// The text of a reply, or `None` where it is blank.
pub fn reply_text(content: Option<String>, thought: Option<String>) -> (text: Option<String>)
    ensures
        match text {
            Some(t) => t@ == reply(content, thought) && crate::text::trimmed(t@).len() > 0,
            None => crate::text::trimmed(reply(content, thought)).len() == 0,
        },
{
    let text = match content {
        Some(c) => c,
        None => match thought {
            Some(t) => t,
            None => String::new(),
        },
    };
    let rest = trim(text.as_str());
    if rest.as_str().unicode_len() == 0 {
        None
    } else {
        Some(text)
    }
}

/// What stands behind an opening fence, without the name of the language.
pub open spec fn fence_body(after: Seq<char>) -> Seq<char> {
    if crate::text::begins_with(after, "yaml"@) {
        after.skip(4)
    } else if crate::text::begins_with(after, "yml"@) {
        after.skip(3)
    } else {
        after
    }
}

/// What stands between the first two fences of a text, or `None` where there are not two.
pub open spec fn fenced(text: Seq<char>) -> Option<Seq<char>> {
    match crate::text::first_occurrence(text, "```"@) {
        Some(start) => {
            let body = fence_body(text.skip(start + 3));
            match crate::text::first_occurrence(body, "```"@) {
                Some(end) => Some(crate::text::trimmed(body.take(end))),
                None => None,
            }
        },
        None => None,
    }
}

/// The draft in a reply: what is fenced, or else all of it.
pub open spec fn yaml_of(content: Seq<char>) -> Seq<char> {
    match fenced(crate::text::trimmed(content)) {
        Some(body) => body,
        None => crate::text::trimmed(content),
    }
}

impl GenerateRuleTool {
    /// A tool that keeps its drafts in a directory.
    pub fn new(drafts_dir: &str) -> (tool: GenerateRuleTool)
        ensures
            tool.drafts_dir@ == drafts_dir@,
    {
        GenerateRuleTool { drafts_dir: drafts_dir.to_owned() }
    }

    /// The draft in a reply: what is fenced, or else all of it.
    pub fn extract_yaml(content: &str) -> (yaml: String)
        ensures
            yaml@ == yaml_of(content@),
    {
        let text = trim(content);
        let size = text.as_str().unicode_len();
        proof {
            reveal_strlit("```");
            reveal_strlit("yaml");
            reveal_strlit("yml");
            crate::text::lemma_first_from(text@, "```"@, 0);
        }
        if let Some(start) = find(text.as_str(), "```") {
            let after = cut(text.as_str(), start + 3, size);
            assert(after@ == text@.skip(start + 3));
            let length = after.as_str().unicode_len();
            let body = if starts_with(after.as_str(), "yaml") {
                cut(after.as_str(), 4, length)
            } else if starts_with(after.as_str(), "yml") {
                cut(after.as_str(), 3, length)
            } else {
                after
            };
            assert(body@ == fence_body(after@));
            proof {
                crate::text::lemma_first_from(body@, "```"@, 0);
            }
            if let Some(end) = find(body.as_str(), "```") {
                let inner = cut(body.as_str(), 0, end);
                assert(inner@ == body@.take(end as int));
                return trim(inner.as_str());
            }
        }
        text
    }
}

// ── The draft ──

/// Whether a character separates the parts of a path.
pub open spec fn is_separator(c: char) -> bool {
    c == '/' || c == '\\'
}

/// An id as it goes into the name of a file: each separator of paths is an underscore.
pub open spec fn file_part(id: Seq<char>) -> Seq<char> {
    id.map_values(
        |c: char|
            if is_separator(c) {
                '_'
            } else {
                c
            },
    )
}

/// The name of the file that a draft is kept in. It is a name in the directory of the drafts,
/// whatever the id.
pub open spec fn draft_name(id: Seq<char>, seconds: u64) -> Seq<char> {
    file_part(id) + "-"@ + crate::number::decimal_text(seconds as nat) + ".yml"@
}

/// An id as it goes into the name of a file.
fn make_file_part(id: &str) -> (part: String)
    ensures
        part@ == file_part(id@),
{
    let chars = chars_of(id);
    let n = chars.len();
    let ghost expected = file_part(id@);
    let mut part = String::new();
    let mut start: usize = 0;
    let mut i: usize = 0;
    while i < n
        invariant
            start <= i <= n,
            n == chars.len(),
            chars@ == id@,
            expected == file_part(id@),
            part@ + id@.subrange(start as int, i as int) == expected.take(i as int),
        decreases n - i,
    {
        assert(expected.take(i + 1) == expected.take(i as int).push(expected[i as int]));
        if chars[i] == '/' || chars[i] == '\\' {
            let before = cut(id, start, i);
            part.append(before.as_str());
            proof {
                reveal_strlit("_");
            }
            part.append("_");
            i = i + 1;
            start = i;
        } else {
            assert(id@.subrange(start as int, i + 1) == id@.subrange(start as int, i as int).push(
                id@[i as int],
            ));
            i = i + 1;
        }
        assert(part@ + id@.subrange(start as int, i as int) == expected.take(i as int));
    }
    let rest = cut(id, start, n);
    part.append(rest.as_str());
    assert(expected.take(n as int) == expected);
    part
}

/// An issue as the result shows it.
pub open spec fn shown_issue(issue: crate::validator::IssueView) -> Seq<char> {
    "["@ + issue.field + "] "@ + issue.message
}

/// What the checks on a draft came to.
#[derive(Debug)]
pub struct DraftVerdict {
    pub report: ValidationReport,
    /// The name of the file to keep the draft in, if it is to be kept.
    pub file_name: Option<String>,
}

/// Checks a draft that was made at a time, in seconds. It is kept exactly if it passes.
pub fn judge_draft(draft: &Rule, seconds: u64) -> (verdict: DraftVerdict)
    requires
        crate::validator::has_small_article(*draft),
    ensures
        verdict.report.total == 1,
        verdict.report.passed == (if crate::validator::passes(*draft) {
            1int
        } else {
            0int
        }),
        crate::validator::issue_views(verdict.report.issues@) == crate::validator::issues_of(
            *draft,
        ),
        match verdict.file_name {
            Some(name) => crate::validator::passes(*draft) && name@ == draft_name(
                draft.id@,
                seconds,
            ) && !name@.contains('/') && !name@.contains('\\'),
            None => !crate::validator::passes(*draft),
        },
{
    let report = RuleValidator::validate(draft);
    assert(crate::validator::issue_views(report.issues@).len() == report.issues@.len());
    let file_name = if report.is_pass() {
        let mut name = make_file_part(draft.id.as_str());
        let time = decimal(seconds);
        name.append("-");
        name.append(time.as_str());
        name.append(".yml");
        proof {
            a_draft_stays_in_its_directory(draft.id@, seconds);
        }
        Some(name)
    } else {
        None
    };
    DraftVerdict { report, file_name }
}

/// The issues as the result shows them.
fn show_issues(issues: &Vec<ValidationIssue>) -> (list: Vec<String>)
    ensures
        crate::text::texts(list@) == crate::validator::issue_views(issues@).map_values(
            |i: crate::validator::IssueView| shown_issue(i),
        ),
{
    let ghost expected = crate::validator::issue_views(issues@).map_values(
        |i: crate::validator::IssueView| shown_issue(i),
    );
    let mut list: Vec<String> = Vec::new();
    let mut i: usize = 0;
    while i < issues.len()
        invariant
            i <= issues.len(),
            expected == crate::validator::issue_views(issues@).map_values(
                |i: crate::validator::IssueView| shown_issue(i),
            ),
            list@.len() == i,
            forall|k: int| 0 <= k < i ==> (#[trigger] list@[k])@ == expected[k],
        decreases issues.len() - i,
    {
        let mut text = "[".to_owned();
        text.append(issues[i].field);
        text.append("] ");
        text.append(issues[i].message.as_str());
        assert(text@ == shown_issue(issues@[i as int]@));
        list.push(text);
        i = i + 1;
    }
    assert(crate::text::texts(list@) == expected);
    list
}

/// The result for a draft that was checked, and written to a file if it passed.
pub fn generation_result(
    draft: &Rule,
    yaml: String,
    report: &ValidationReport,
    draft_path: Option<String>,
) -> (result: GenerateRuleResult)
    ensures
        result.rule_id@ == draft.id@,
        result.yaml == yaml,
        result.passed == (report.issues@.len() == 0),
        crate::text::texts(result.issues@) == crate::validator::issue_views(
            report.issues@,
        ).map_values(|i: crate::validator::IssueView| shown_issue(i)),
        result.draft_path == draft_path,
{
    let issues = show_issues(&report.issues);
    GenerateRuleResult {
        rule_id: draft.id.clone(),
        yaml,
        passed: report.is_pass(),
        issues,
        draft_path,
    }
}

// ── Laws ──

/// The name of the file of a draft holds no separator of paths, so the draft lands in the directory
/// of the drafts and nowhere else. An id without a separator goes into the name as it is.
pub proof fn a_draft_stays_in_its_directory(id: Seq<char>, seconds: u64)
    ensures
        !draft_name(id, seconds).contains('/'),
        !draft_name(id, seconds).contains('\\'),
        !id.contains('/') && !id.contains('\\') ==> file_part(id) == id,
{
    let name = draft_name(id, seconds);
    let part = file_part(id);
    let time = crate::number::decimal_text(seconds as nat);
    reveal_strlit("-");
    reveal_strlit(".yml");
    crate::number::decimal_text_reads_back(seconds as nat);
    assert forall|i: int| 0 <= i < name.len() implies !is_separator(#[trigger] name[i]) by {
        if i < part.len() {
            assert(name[i] == part[i]);
        } else if i == part.len() {
            assert(name[i] == '-');
        } else if i < part.len() + 1 + time.len() {
            assert(name[i] == time[i - part.len() - 1]);
            assert(crate::number::is_digit(time[i - part.len() - 1]));
        } else {
            assert(name[i] == ".yml"@[i - part.len() - 1 - time.len()]);
        }
    }
    if !id.contains('/') && !id.contains('\\') {
        assert(part =~= id);
    }
}

/// A text without a fence is taken as it is, but for white space at its ends.
pub proof fn a_plain_reply_passes_through(content: Seq<char>)
    requires
        !crate::text::contains_text(crate::text::trimmed(content), "```"@),
    ensures
        yaml_of(content) == crate::text::trimmed(content),
{
    crate::text::lemma_contains_is_first(crate::text::trimmed(content), "```"@);
}

/// White space behind a text does not count when it is trimmed.
proof fn lemma_trailing_break(text: Seq<char>)
    ensures
        crate::text::trimmed(text.push('\n')) == crate::text::trimmed(text),
    decreases text.len(),
{
    let blank = |c: char| crate::text::is_white_space(c);
    let long = text.push('\n');
    if text.len() == 0 {
        assert(long.drop_first() == text);
    } else if blank(text[0]) {
        assert(long.drop_first() == text.drop_first().push('\n'));
        lemma_trailing_break(text.drop_first());
    } else {
        assert(long.drop_last() == text);
    }
}

/// A text between line breaks is trimmed as the text is.
proof fn lemma_lines_are_trimmed(text: Seq<char>)
    ensures
        crate::text::trimmed(seq!['\n'] + text + seq!['\n']) == crate::text::trimmed(text),
{
    let long = seq!['\n'] + text + seq!['\n'];
    assert(long.drop_first() == text.push('\n'));
    lemma_trailing_break(text);
}

/// Dropping leading characters stops at one that is kept.
proof fn lemma_leading_stops(a: Seq<char>, b: Seq<char>, drop: spec_fn(char) -> bool)
    requires
        b.len() > 0,
        !drop(b[0]),
    ensures
        crate::text::without_leading(a + b, drop) == crate::text::without_leading(a, drop) + b,
    decreases a.len(),
{
    if a.len() == 0 {
        assert(a + b == b);
    } else {
        assert((a + b).drop_first() == a.drop_first() + b);
        lemma_leading_stops(a.drop_first(), b, drop);
    }
}

/// Dropping trailing characters stops at one that is kept.
proof fn lemma_trailing_stops(a: Seq<char>, b: Seq<char>, drop: spec_fn(char) -> bool)
    requires
        a.len() > 0,
        !drop(a.last()),
    ensures
        crate::text::without_trailing(a + b, drop) == a + crate::text::without_trailing(b, drop),
    decreases b.len(),
{
    if b.len() == 0 {
        assert(a + b == a);
    } else {
        assert((a + b).drop_last() == a + b.drop_last());
        lemma_trailing_stops(a, b.drop_last(), drop);
    }
}

/// What is left without leading characters is an end of the text.
proof fn lemma_is_an_end(text: Seq<char>, drop: spec_fn(char) -> bool) -> (k: int)
    ensures
        0 <= k <= text.len(),
        crate::text::without_leading(text, drop) == text.skip(k),
    decreases text.len(),
{
    if text.len() > 0 && drop(text[0]) {
        let k = lemma_is_an_end(text.drop_first(), drop);
        assert(text.drop_first().skip(k) == text.skip(k + 1));
        k + 1
    } else {
        assert(text.skip(0) == text);
        0
    }
}

/// A fence that begins in a text which holds none would make the text end in a backtick.
proof fn lemma_no_fence_before(lead: Seq<char>, rest: Seq<char>, j: int)
    requires
        !crate::text::contains_text(lead, "```"@),
        lead.len() > 0 ==> lead.last() != '`',
        0 <= j < lead.len(),
    ensures
        !crate::text::occurs_at(lead + rest, "```"@, j),
{
    let all = lead + rest;
    reveal_strlit("```");
    if crate::text::occurs_at(all, "```"@, j) {
        let piece = all.subrange(j, j + 3);
        assert(piece[0] == '`' && piece[1] == '`' && piece[2] == '`');
        assert(all[j] == '`' && all[j + 1] == '`' && all[j + 2] == '`');
        if j + 3 <= lead.len() {
            assert(lead.subrange(j, j + 3) == "```"@);
            assert(crate::text::occurs_at(lead, "```"@, j));
        } else {
            assert(all[lead.len() - 1] == '`');
        }
    }
}

/// The first fence behind a text that holds none, and does not end in a backtick, is the next one.
proof fn lemma_first_fence(lead: Seq<char>, rest: Seq<char>)
    requires
        !crate::text::contains_text(lead, "```"@),
        lead.len() > 0 ==> lead.last() != '`',
    ensures
        crate::text::first_occurrence(lead + "```"@ + rest, "```"@) == Some(lead.len() as int),
        (lead + "```"@ + rest).skip(lead.len() as int + 3) == rest,
        (lead + "```"@ + rest).take(lead.len() as int) == lead,
{
    let fence = "```"@;
    let all = lead + fence + rest;
    let start = lead.len() as int;
    reveal_strlit("```");
    assert(all == lead + (fence + rest));
    assert forall|j: int| 0 <= j < start implies !#[trigger] crate::text::occurs_at(
        all,
        fence,
        j,
    ) by {
        lemma_no_fence_before(lead, fence + rest, j);
    }
    assert(all.subrange(start, start + 3) == fence);
    assert(crate::text::occurs_at(all, fence, start));
    crate::text::lemma_first_from(all, fence, 0);
}

/// An end of a text without a fence holds none.
proof fn lemma_no_fence_in_end(text: Seq<char>, k: int)
    requires
        0 <= k <= text.len(),
        !crate::text::contains_text(text, "```"@),
    ensures
        !crate::text::contains_text(text.skip(k), "```"@),
{
    let fence = "```"@;
    if crate::text::contains_text(text.skip(k), fence) {
        let i = choose|i: int| crate::text::occurs_at(text.skip(k), fence, i);
        assert(text.subrange(k + i, k + i + fence.len()) == text.skip(k).subrange(
            i,
            i + fence.len(),
        ));
        assert(crate::text::occurs_at(text, fence, k + i));
    }
}

/// Between line breaks a text without a fence holds none either.
proof fn lemma_no_fence_in_lines(body: Seq<char>)
    requires
        !crate::text::contains_text(body, "```"@),
    ensures
        !crate::text::contains_text(seq!['\n'] + body + seq!['\n'], "```"@),
{
    let fence = "```"@;
    let open = seq!['\n'] + body + seq!['\n'];
    reveal_strlit("```");
    if crate::text::contains_text(open, fence) {
        let j = choose|j: int| crate::text::occurs_at(open, fence, j);
        let piece = open.subrange(j, j + 3);
        assert(piece[0] == '`' && piece[1] == '`' && piece[2] == '`');
        assert(open[j] == '`' && open[j + 1] == '`' && open[j + 2] == '`');
        assert(open[0] == '\n' && open[open.len() - 1] == '\n');
        assert(body.subrange(j - 1, j + 2) == fence);
        assert(crate::text::occurs_at(body, fence, j - 1));
    }
}

/// Trimming takes white space from what stands around a text that has none at its ends.
proof fn lemma_trimmed_around(lead: Seq<char>, core: Seq<char>, rest: Seq<char>) -> (k: int)
    requires
        core.len() > 0,
        !crate::text::is_white_space(core[0]),
        !crate::text::is_white_space(core.last()),
    ensures
        0 <= k <= lead.len(),
        crate::text::trimmed(lead + core + rest) == lead.skip(k) + core
            + crate::text::without_trailing(rest, |c: char| crate::text::is_white_space(c)),
{
    let blank = |c: char| crate::text::is_white_space(c);
    lemma_leading_stops(lead, core + rest, blank);
    assert(lead + core + rest == lead + (core + rest));
    let k = lemma_is_an_end(lead, blank);
    let before = lead.skip(k);
    assert(before + (core + rest) == (before + core) + rest);
    assert((before + core).last() == core.last());
    lemma_trailing_stops(before + core, rest, blank);
    k
}

/// The name of a language behind an opening fence is dropped.
proof fn lemma_fence_body(language: Seq<char>, lines: Seq<char>)
    requires
        language == "yaml"@ || language == "yml"@ || language.len() == 0,
        lines.len() > 0,
        lines[0] == '\n',
    ensures
        fence_body(language + lines) == lines,
{
    let after = language + lines;
    reveal_strlit("yaml");
    reveal_strlit("yml");
    if language == "yaml"@ {
        assert(after.subrange(0, 4) == "yaml"@);
        assert(after.skip(4) == lines);
    } else if language == "yml"@ {
        assert(after[1] == 'm');
        if crate::text::begins_with(after, "yaml"@) {
            assert(after.subrange(0, 4)[1] == 'a');
        }
        assert(after.subrange(0, 3) == "yml"@);
        assert(after.skip(3) == lines);
    } else {
        assert(after == lines);
        if crate::text::begins_with(after, "yaml"@) {
            assert(after.subrange(0, 4)[0] == 'y');
        }
        if crate::text::begins_with(after, "yml"@) {
            assert(after.subrange(0, 3)[0] == 'y');
        }
    }
}

/// The draft in a fenced reply is what stands between the fences, whatever stands around them. The
/// text before them must not end in a backtick, which would belong to the fence.
pub proof fn a_fenced_draft_is_taken_out(
    lead: Seq<char>,
    language: Seq<char>,
    body: Seq<char>,
    rest: Seq<char>,
)
    requires
        !crate::text::contains_text(lead, "```"@),
        lead.len() > 0 ==> lead.last() != '`',
        language == "yaml"@ || language == "yml"@ || language.len() == 0,
        !crate::text::contains_text(body, "```"@),
    ensures
        yaml_of(lead + "```"@ + language + "\n"@ + body + "\n```"@ + rest)
            == crate::text::trimmed(body),
{
    let blank = |c: char| crate::text::is_white_space(c);
    let open = seq!['\n'] + body + seq!['\n'];
    let core = "```"@ + language + open + "```"@;
    let behind = crate::text::without_trailing(rest, blank);
    let lines = open + "```"@ + behind;
    assert(lead + "```"@ + language + "\n"@ + body + "\n```"@ + rest == lead + core + rest) by {
        reveal_strlit("```");
        reveal_strlit("\n");
        reveal_strlit("\n```");
        assert("\n"@ == seq!['\n']);
        assert("\n```"@ == seq!['\n'] + "```"@);
    }
    assert(core.len() > 0 && core[0] == '`' && core.last() == '`') by {
        reveal_strlit("```");
    }
    let k = lemma_trimmed_around(lead, core, rest);
    let before = lead.skip(k);
    assert(before + core + behind == before + "```"@ + (language + lines));
    lemma_no_fence_in_end(lead, k);
    assert(before.len() > 0 ==> before.last() == lead.last());
    lemma_first_fence(before, language + lines);
    lemma_fence_body(language, lines);
    lemma_no_fence_in_lines(body);
    assert(open.last() == '\n');
    lemma_first_fence(open, behind);
    lemma_lines_are_trimmed(body);
}

/// An article reads the same in the question with or without its `第` and `条`.
#[verifier::spinoff_prover]
pub proof fn the_question_takes_an_article_either_way(numeral: Seq<char>)
    requires
        numeral.len() > 0,
        numeral[0] != '第',
        numeral.last() != '条',
    ensures
        bare_article(seq!['第'] + numeral + seq!['条']) == numeral,
        bare_article(numeral) == numeral,
{
    let lead = |c: char| c == '第';
    let tail = |c: char| c == '条';
    let short = numeral + seq!['条'];
    let long = seq!['第'] + numeral + seq!['条'];
    assert(crate::text::without_leading(short, lead) == short);
    assert(crate::text::without_leading(long, lead) == short) by {
        assert(long.drop_first() == short);
    }
    assert(crate::text::without_leading(numeral, lead) == numeral);
    assert(crate::text::without_trailing(numeral, tail) == numeral);
    assert(crate::text::without_trailing(short, tail) == numeral) by {
        assert(short.drop_last() == numeral);
    }
}

/// The question tells the topic whole, and the law and the article as far as they are given.
pub proof fn the_question_tells_its_parts(args: GenerateRuleArgs)
    ensures
        args.law is None && args.article is None ==> question(args) == "条款样本/主题：\n"@ + args.topic@
            + "\n"@,
        args.law is Some && args.article is None ==> question(args) == "条款样本/主题：\n"@ + args.topic@
            + "\n"@ + "\n法律依据："@ + args.law->0@,
        args.law is None && args.article is Some ==> question(args) == "条款样本/主题：\n"@ + args.topic@
            + "\n"@ + " 第"@ + bare_article(args.article->0@) + "条"@,
        args.law is Some && args.article is Some ==> question(args) == "条款样本/主题：\n"@ + args.topic@
            + "\n"@ + "\n法律依据："@ + args.law->0@ + " 第"@ + bare_article(args.article->0@) + "条"@,
{
    let none = Seq::<char>::empty();
    let head = "条款样本/主题：\n"@ + args.topic@ + "\n"@;
    assert(head + none + none =~= head);
    if args.law is Some {
        let law = "\n法律依据："@ + args.law->0@;
        assert(head + law + none =~= head + "\n法律依据："@ + args.law->0@);
        if args.article is Some {
            let bare = bare_article(args.article->0@);
            assert(head + law + (" 第"@ + bare + "条"@) =~= head + "\n法律依据："@ + args.law->0@
                + " 第"@ + bare + "条"@);
        }
    } else if args.article is Some {
        let bare = bare_article(args.article->0@);
        assert(head + none + (" 第"@ + bare + "条"@) =~= head + " 第"@ + bare + "条"@);
    }
}

/// The marks of an article do not count, however often they stand there.
pub proof fn the_marks_of_an_article_do_not_count(article: Seq<char>)
    ensures
        bare_article(seq!['第'] + article) == bare_article(article),
        bare_article(article.push('条')) == bare_article(article),
{
    let first = |c: char| c == '第';
    let last = |c: char| c == '条';
    assert((seq!['第'] + article).drop_first() =~= article);
    lemma_leading_stops(article, seq!['条'], first);
    assert(article + seq!['条'] =~= article.push('条'));
    let bare = crate::text::without_leading(article, first);
    assert((bare + seq!['条']).drop_last() =~= bare);
}

/// A reply is its content; only without content does the thought count.
pub proof fn a_reply_is_its_content(content: String, thought: Option<String>, other: String)
    ensures
        reply(Some(content), thought) == content@,
        reply(None, Some(other)) == other@,
        reply(None, None).len() == 0,
{
}

/// Behind an opening fence the name of the language is dropped, and nothing else.
pub proof fn the_language_of_a_fence_is_dropped(text: Seq<char>)
    ensures
        fence_body("yaml"@ + text) == text,
        fence_body("yml"@ + text) == text,
        !crate::text::begins_with(text, "yaml"@) && !crate::text::begins_with(text, "yml"@)
            ==> fence_body(text) == text,
{
    reveal_strlit("yaml");
    reveal_strlit("yml");
    crate::text::a_written_word_is_contained(Seq::empty(), "yaml"@, text);
    crate::text::a_written_word_is_contained(Seq::empty(), "yml"@, text);
    assert(("yaml"@ + text).skip(4) =~= text);
    assert(("yml"@ + text).skip(3) =~= text);
    assert(("yml"@ + text)[1] == 'm');
    if crate::text::begins_with("yml"@ + text, "yaml"@) {
        assert(("yml"@ + text).subrange(0, 4)[1] == 'a');
    }
}

/// A fence that is not closed is none: the reply is taken whole.
pub proof fn an_open_fence_is_none(lead: Seq<char>, rest: Seq<char>, content: Seq<char>)
    requires
        !crate::text::contains_text(lead, "```"@),
        lead.len() > 0 ==> lead.last() != '`',
        !crate::text::contains_text(rest, "```"@),
        crate::text::trimmed(content) == lead + "```"@ + rest,
    ensures
        yaml_of(content) == lead + "```"@ + rest,
{
    lemma_first_fence(lead, rest);
    let body = fence_body(rest);
    assert(!crate::text::contains_text(body, "```"@)) by {
        if crate::text::begins_with(rest, "yaml"@) {
            reveal_strlit("yaml");
            lemma_no_fence_in_end(rest, 4);
        } else if crate::text::begins_with(rest, "yml"@) {
            reveal_strlit("yml");
            lemma_no_fence_in_end(rest, 3);
        }
    }
    crate::text::lemma_contains_is_first(body, "```"@);
}

/// What is fenced on one line is taken as what is fenced on its own lines.
pub proof fn a_draft_may_be_fenced_on_one_line(
    lead: Seq<char>,
    body: Seq<char>,
    rest: Seq<char>,
    content: Seq<char>,
)
    requires
        !crate::text::contains_text(lead, "```"@),
        lead.len() > 0 ==> lead.last() != '`',
        !crate::text::begins_with(body + "```"@ + rest, "yaml"@),
        !crate::text::begins_with(body + "```"@ + rest, "yml"@),
        !crate::text::contains_text(body, "```"@),
        body.len() > 0 ==> body.last() != '`',
        crate::text::trimmed(content) == lead + "```"@ + (body + "```"@ + rest),
    ensures
        yaml_of(content) == crate::text::trimmed(body),
{
    lemma_first_fence(lead, body + "```"@ + rest);
    lemma_first_fence(body, rest);
}

/// The parts of an id go into the name of a file one for one: a separator of paths as an underscore,
/// any other character as it is.
pub proof fn an_id_goes_into_a_name_character_by_character(id: Seq<char>, i: int)
    requires
        0 <= i < id.len(),
    ensures
        file_part(id).len() == id.len(),
        id[i] == '/' || id[i] == '\\' ==> file_part(id)[i] == '_',
        id[i] != '/' && id[i] != '\\' ==> file_part(id)[i] == id[i],
{
}

/// The name of the file of a draft is its id, a dash, the time, and the ending.
pub proof fn a_draft_is_named_by_its_id_and_time(id: Seq<char>, seconds: u64, other: u64)
    requires
        !id.contains('/'),
        !id.contains('\\'),
    ensures
        draft_name(id, seconds) == id + "-"@ + crate::number::decimal_text(seconds as nat) + ".yml"@,
        draft_name(id, seconds) == draft_name(id, other) ==> seconds == other,
{
    a_draft_stays_in_its_directory(id, seconds);
    if draft_name(id, seconds) == draft_name(id, other) {
        let (a, b) = (
            crate::number::decimal_text(seconds as nat),
            crate::number::decimal_text(other as nat),
        );
        let head = id + "-"@;
        let (x, y) = (draft_name(id, seconds), draft_name(id, other));
        let end = ".yml"@;
        assert(x.subrange(head.len() as int, x.len() - end.len()) =~= a);
        assert(y.subrange(head.len() as int, y.len() - end.len()) =~= b);
        crate::number::decimal_text_is_injective(seconds as nat, other as nat);
    }
}

/// An issue is shown with its field in brackets and its message whole.
pub proof fn an_issue_is_shown_with_its_field(issue: crate::validator::IssueView)
    ensures
        shown_issue(issue) == "["@ + issue.field + "] "@ + issue.message,
{
}

} // verus!
