//! Records of past runs: what is shown of each, and how they are found and listed.

use crate::outside::{
    json_array, json_at, json_bool, json_from_list, json_from_str, json_set, json_str, json_text,
    json_u64,
};
use crate::text::{precedes, same_text, starts_with};
use vstd::prelude::*;

verus! {

/// New tags for a record.
#[derive(Debug)]
pub struct UpdateTagsRequest {
    pub tags: Vec<String>,
}

/// What is shown of a record.
#[derive(Debug)]
pub struct RunSummary {
    /// The place of the record among the files that were read.
    pub place: usize,
    /// The group that the record belongs to.
    pub experiment_group: Option<String>,
    pub run_id: String,
    pub title: Option<String>,
    pub notes: Option<String>,
    pub timestamp: String,
    pub tags: Vec<String>,
    pub description: String,
    pub document_name: String,
    pub llm_calls: u64,
    pub tokens_input: u64,
    pub tokens_output: u64,
    pub total_findings: u64,
    pub high_findings: u64,
    pub coordinator_enabled: bool,
    pub llm_model: String,
    pub embed_engine: String,
}

/// The model of what is shown of a record.
#[verifier::ext_equal]
pub struct SummaryView {
    pub place: usize,
    pub experiment_group: Option<Seq<char>>,
    pub run_id: Seq<char>,
    pub title: Option<Seq<char>>,
    pub notes: Option<Seq<char>>,
    pub timestamp: Seq<char>,
    pub tags: Seq<Seq<char>>,
    pub description: Seq<char>,
    pub document_name: Seq<char>,
    pub llm_calls: u64,
    pub tokens_input: u64,
    pub tokens_output: u64,
    pub total_findings: u64,
    pub high_findings: u64,
    pub coordinator_enabled: bool,
    pub llm_model: Seq<char>,
    pub embed_engine: Seq<char>,
}

impl View for RunSummary {
    type V = SummaryView;

    open spec fn view(&self) -> SummaryView {
        SummaryView {
            place: self.place,
            experiment_group: crate::outside::optional_text(self.experiment_group),
            run_id: self.run_id@,
            title: crate::outside::optional_text(self.title),
            notes: crate::outside::optional_text(self.notes),
            timestamp: self.timestamp@,
            tags: crate::text::texts(self.tags@),
            description: self.description@,
            document_name: self.document_name@,
            llm_calls: self.llm_calls,
            tokens_input: self.tokens_input,
            tokens_output: self.tokens_output,
            total_findings: self.total_findings,
            high_findings: self.high_findings,
            coordinator_enabled: self.coordinator_enabled,
            llm_model: self.llm_model@,
            embed_engine: self.embed_engine@,
        }
    }
}

// ── Reading a record ──

/// What a record holds of what is shown. What is missing, or of another type, is `None`.
#[derive(Debug)]
pub struct RunFields {
    pub run_id: Option<String>,
    pub title: Option<String>,
    pub notes: Option<String>,
    pub timestamp: Option<String>,
    pub tags: Vec<String>,
    pub description: Option<String>,
    pub document_name: Option<String>,
    pub llm_calls: Option<u64>,
    pub tokens_input: Option<u64>,
    pub tokens_output: Option<u64>,
    pub total_findings: Option<u64>,
    pub high_findings: Option<u64>,
    pub coordinator_enabled: Option<bool>,
    pub llm_model: Option<String>,
    pub embed_engine: Option<String>,
}

/// The model of what a record holds.
#[verifier::ext_equal]
pub struct FieldsView {
    pub run_id: Option<Seq<char>>,
    pub title: Option<Seq<char>>,
    pub notes: Option<Seq<char>>,
    pub timestamp: Option<Seq<char>>,
    pub tags: Seq<Seq<char>>,
    pub description: Option<Seq<char>>,
    pub document_name: Option<Seq<char>>,
    pub llm_calls: Option<u64>,
    pub tokens_input: Option<u64>,
    pub tokens_output: Option<u64>,
    pub total_findings: Option<u64>,
    pub high_findings: Option<u64>,
    pub coordinator_enabled: Option<bool>,
    pub llm_model: Option<Seq<char>>,
    pub embed_engine: Option<Seq<char>>,
}

impl View for RunFields {
    type V = FieldsView;

    open spec fn view(&self) -> FieldsView {
        FieldsView {
            run_id: crate::outside::optional_text(self.run_id),
            title: crate::outside::optional_text(self.title),
            notes: crate::outside::optional_text(self.notes),
            timestamp: crate::outside::optional_text(self.timestamp),
            tags: crate::text::texts(self.tags@),
            description: crate::outside::optional_text(self.description),
            document_name: crate::outside::optional_text(self.document_name),
            llm_calls: self.llm_calls,
            tokens_input: self.tokens_input,
            tokens_output: self.tokens_output,
            total_findings: self.total_findings,
            high_findings: self.high_findings,
            coordinator_enabled: self.coordinator_enabled,
            llm_model: crate::outside::optional_text(self.llm_model),
            embed_engine: crate::outside::optional_text(self.embed_engine),
        }
    }
}

/// A number, or 0 where there is none.
pub open spec fn number_or_zero(number: Option<u64>) -> u64 {
    match number {
        Some(n) => n,
        None => 0,
    }
}

/// What is shown of a record that holds those fields.
pub open spec fn summary_with(
    fields: FieldsView,
    group: Option<Seq<char>>,
    place: usize,
) -> SummaryView {
    SummaryView {
        place,
        experiment_group: group,
        run_id: crate::stream::text_or(fields.run_id, "?"@),
        title: fields.title,
        notes: fields.notes,
        timestamp: crate::stream::text_or(fields.timestamp, "?"@),
        tags: fields.tags,
        description: crate::stream::text_or(fields.description, Seq::empty()),
        document_name: crate::stream::text_or(fields.document_name, "?"@),
        llm_calls: number_or_zero(fields.llm_calls),
        tokens_input: number_or_zero(fields.tokens_input),
        tokens_output: number_or_zero(fields.tokens_output),
        total_findings: number_or_zero(fields.total_findings),
        high_findings: number_or_zero(fields.high_findings),
        coordinator_enabled: fields.coordinator_enabled == Some(true),
        llm_model: crate::stream::text_or(fields.llm_model, "?"@),
        embed_engine: crate::stream::text_or(fields.embed_engine, "?"@),
    }
}

/// What a record holds of what is shown.
pub open spec fn fields_of(record: Seq<char>) -> FieldsView {
    FieldsView {
        run_id: crate::outside::json_string(record, "/meta/run_id"@),
        title: crate::outside::json_string(record, "/meta/title"@),
        notes: crate::outside::json_string(record, "/meta/notes"@),
        timestamp: crate::outside::json_string(record, "/meta/timestamp"@),
        tags: crate::outside::strings_at(record, "/meta/tags"@),
        description: crate::outside::json_string(record, "/meta/description"@),
        document_name: crate::outside::json_string(record, "/meta/document/name"@),
        llm_calls: crate::outside::json_number(record, "/llm_efficiency/totals/llm_calls"@),
        tokens_input: crate::outside::json_number(record, "/llm_efficiency/totals/tokens_input"@),
        tokens_output: crate::outside::json_number(record, "/llm_efficiency/totals/tokens_output"@),
        total_findings: crate::outside::json_number(
            record,
            "/review_quality/findings/after_dedup"@,
        ),
        high_findings: crate::outside::json_number(
            record,
            "/review_quality/findings/by_severity/high"@,
        ),
        coordinator_enabled: crate::outside::json_truth(
            record,
            "/meta/config/coordinator_enabled"@,
        ),
        llm_model: crate::outside::json_string(record, "/meta/config/llm_model"@),
        embed_engine: crate::outside::json_string(record, "/meta/config/embed_engine"@),
    }
}

/// The strings of a list of JSON texts; what is no string is left out.
pub fn keep_strings(list: &Vec<String>) -> (strings: Vec<String>)
    ensures
        crate::text::texts(strings@) == crate::outside::strings_of(crate::text::texts(list@)),
{
    let ghost all = crate::text::texts(list@);
    let mut strings: Vec<String> = Vec::new();
    let mut i: usize = 0;
    assert(crate::text::texts(strings@) == crate::outside::strings_of(all.take(0)));
    while i < list.len()
        invariant
            i <= list.len(),
            all == crate::text::texts(list@),
            crate::text::texts(strings@) == crate::outside::strings_of(all.take(i as int)),
        decreases list.len() - i,
    {
        assert(all.take(i + 1).drop_last() == all.take(i as int));
        assert(all.take(i + 1).last() == list@[i as int]@);
        if let Some(s) = json_str(list[i].as_str(), "") {
            let ghost before = strings@;
            strings.push(s);
            assert(crate::text::texts(strings@) == crate::text::texts(before).push(s@));
        }
        i = i + 1;
    }
    assert(all.take(i as int) == all);
    strings
}

/// The strings of the array at a place of a record.
fn read_strings(record: &str, pointer: &str) -> (strings: Vec<String>)
    ensures
        crate::text::texts(strings@) == crate::outside::strings_at(record@, pointer@),
{
    let none: Vec<String> = Vec::new();
    assert(crate::text::texts(none@) == Seq::<Seq<char>>::empty());
    match json_array(record, pointer) {
        Some(list) => keep_strings(&list),
        None => none,
    }
}

/// What a record holds of what is shown.
fn read_fields(record: &str) -> (fields: RunFields)
    ensures
        fields@ == fields_of(record@),
{
    let fields = RunFields {
        run_id: json_str(record, "/meta/run_id"),
        title: json_str(record, "/meta/title"),
        notes: json_str(record, "/meta/notes"),
        timestamp: json_str(record, "/meta/timestamp"),
        tags: read_strings(record, "/meta/tags"),
        description: json_str(record, "/meta/description"),
        document_name: json_str(record, "/meta/document/name"),
        llm_calls: json_u64(record, "/llm_efficiency/totals/llm_calls"),
        tokens_input: json_u64(record, "/llm_efficiency/totals/tokens_input"),
        tokens_output: json_u64(record, "/llm_efficiency/totals/tokens_output"),
        total_findings: json_u64(record, "/review_quality/findings/after_dedup"),
        high_findings: json_u64(record, "/review_quality/findings/by_severity/high"),
        coordinator_enabled: json_bool(record, "/meta/config/coordinator_enabled"),
        llm_model: json_str(record, "/meta/config/llm_model"),
        embed_engine: json_str(record, "/meta/config/embed_engine"),
    };
    assert(fields@ =~= fields_of(record@));
    fields
}

/// A text, or another one where there is none.
fn text_or_else(text: Option<String>, other: &str) -> (chosen: String)
    ensures
        chosen@ == crate::stream::text_or(crate::outside::optional_text(text), other@),
{
    match text {
        Some(t) => t,
        None => other.to_owned(),
    }
}

/// A number, or 0 where there is none.
fn or_zero(number: Option<u64>) -> (n: u64)
    ensures
        n == number_or_zero(number),
{
    match number {
        Some(n) => n,
        None => 0,
    }
}

/// What is shown of a record that holds those fields.
pub fn fill_summary(fields: RunFields, group: Option<String>, place: usize) -> (summary:
    RunSummary)
    ensures
        summary@ == summary_with(fields@, crate::outside::optional_text(group), place),
{
    proof {
        reveal_strlit("");
        assert(""@ == Seq::<char>::empty());
    }
    RunSummary {
        place,
        experiment_group: group,
        run_id: text_or_else(fields.run_id, "?"),
        title: fields.title,
        notes: fields.notes,
        timestamp: text_or_else(fields.timestamp, "?"),
        tags: fields.tags,
        description: text_or_else(fields.description, ""),
        document_name: text_or_else(fields.document_name, "?"),
        llm_calls: or_zero(fields.llm_calls),
        tokens_input: or_zero(fields.tokens_input),
        tokens_output: or_zero(fields.tokens_output),
        total_findings: or_zero(fields.total_findings),
        high_findings: or_zero(fields.high_findings),
        coordinator_enabled: match fields.coordinator_enabled {
            Some(b) => b,
            None => false,
        },
        llm_model: text_or_else(fields.llm_model, "?"),
        embed_engine: text_or_else(fields.embed_engine, "?"),
    }
}

/// What is shown of a record, or `None` where it is no JSON.
pub fn summarize(record: &str, group: Option<String>, place: usize) -> (summary: Option<
    RunSummary,
>)
    ensures
        match summary {
            Some(s) => crate::outside::json_member(record@, ""@) is Some && s@ == summary_with(
                fields_of(record@),
                crate::outside::optional_text(group),
                place,
            ),
            None => crate::outside::json_member(record@, ""@) is None,
        },
{
    if json_text(record).is_err() {
        return None;
    }
    Some(fill_summary(read_fields(record), group, place))
}

/// A record as it is sent: the JSON that it holds, or why it holds none.
pub fn record_text(record: &str) -> (shown: Result<String, String>)
    ensures
        match shown {
            Ok(t) => crate::outside::json_fault(record@) is None && crate::outside::json_member(
                record@,
                ""@,
            ) == Some(Some(t@)),
            Err(m) => crate::outside::json_fault(record@) is Some && m@ == "JSON 解析失败: "@
                + crate::outside::json_fault(record@)->0,
        },
{
    match json_text(record) {
        Ok(text) => Ok(text),
        Err(reason) => {
            let mut message = "JSON 解析失败: ".to_owned();
            message.append(reason.as_str());
            Err(message)
        },
    }
}

// ── Changing a record ──

/// What became of a change to a record.
#[derive(Debug)]
pub enum MetaEdit {
    /// The record is no JSON, for a reason.
    NotJson(String),
    /// The record is no object, or its `meta` is none.
    Unfit,
    /// The record as it is now.
    Edited(String),
}

/// The model of what became of a change.
pub enum EditView {
    NotJson(Seq<char>),
    Unfit,
    Edited(Seq<char>),
}

impl View for MetaEdit {
    type V = EditView;

    open spec fn view(&self) -> EditView {
        match self {
            MetaEdit::NotJson(message) => EditView::NotJson(message@),
            MetaEdit::Unfit => EditView::Unfit,
            MetaEdit::Edited(text) => EditView::Edited(text@),
        }
    }
}

/// A record with a member of its `meta` set to what a source gives, or to `null`.
pub open spec fn edit_of(
    record: Seq<char>,
    key: Seq<char>,
    source: Option<(Seq<char>, Seq<char>)>,
) -> EditView {
    match crate::outside::json_fault(record) {
        Some(message) => EditView::NotJson(message),
        None => if crate::outside::takes_inner_members(record, "meta"@) {
            EditView::Edited(crate::outside::json_with_member(record, "meta"@, key, source))
        } else {
            EditView::Unfit
        },
    }
}

/// Whether an edited record holds at a place what a source gives, and elsewhere what it held
/// before, and can be edited again, wherever it can be read; and it can be read where the record
/// prints readably and the source gives a text, or nothing.
pub open spec fn is_edited(
    record: Seq<char>,
    edited: Seq<char>,
    place: Seq<char>,
    source: Option<(Seq<char>, Seq<char>)>,
) -> bool {
    &&& crate::outside::json_fault(edited) is None ==> crate::outside::is_set_to(
        record,
        edited,
        place,
        source,
    )
    &&& crate::outside::json_fault(edited) is None ==> crate::outside::takes_inner_members(
        edited,
        "meta"@,
    )
    &&& crate::outside::prints_readably(record) && crate::outside::is_textual(source)
        ==> crate::outside::json_fault(edited) is None
}

/// Whether the compact text of a JSON value is that of an object, or of `null`.
fn can_take_members(compact: &str) -> (hit: bool)
    ensures
        hit == crate::outside::takes_members(compact@),
{
    same_text(compact, "null") || starts_with(compact, "{")
}

/// Whether the `meta` of a record can be given members.
fn can_take_meta(record: &str) -> (hit: bool)
    ensures
        hit == crate::outside::takes_inner_members(record@, "meta"@),
{
    proof {
        reveal_strlit("/");
        reveal_strlit("meta");
        reveal_strlit("/meta");
        assert("/meta"@ == "/"@ + "meta"@);
    }
    let whole = match json_text(record) {
        Ok(text) => can_take_members(text.as_str()),
        Err(_) => false,
    };
    let inner = match json_at(record, "/meta") {
        Some(m) => match m {
            Some(text) => can_take_members(text.as_str()),
            None => true,
        },
        None => true,
    };
    whole && inner
}

/// The places of a record that are shown.
pub open spec fn shown_places() -> Seq<Seq<char>> {
    seq![
        "/meta/run_id"@,
        "/meta/title"@,
        "/meta/notes"@,
        "/meta/timestamp"@,
        "/meta/tags"@,
        "/meta/description"@,
        "/meta/document/name"@,
        "/llm_efficiency/totals/llm_calls"@,
        "/llm_efficiency/totals/tokens_input"@,
        "/llm_efficiency/totals/tokens_output"@,
        "/review_quality/findings/after_dedup"@,
        "/review_quality/findings/by_severity/high"@,
        "/meta/config/coordinator_enabled"@,
        "/meta/config/llm_model"@,
        "/meta/config/embed_engine"@,
    ]
}

/// Two pointers that differ in one of their first nine characters are apart.
proof fn lemma_apart(pointer: Seq<char>, place: Seq<char>)
    requires
        pointer.len() >= 9,
        place.len() >= 9,
        pointer[1] != place[1] || pointer[6] != place[6] || pointer[7] != place[7] || pointer[8]
            != place[8],
    ensures
        crate::outside::is_apart(pointer, place),
{
    let below = place + "/"@;
    if crate::text::begins_with(pointer, below) {
        let head = pointer.subrange(0, below.len() as int);
        assert(head[1] == below[1] && head[6] == below[6] && head[7] == below[7] && head[8]
            == below[8]);
    }
}

/// The fields of a record after a change at a place, in terms of those before.
proof fn lemma_fields_stay(before: Seq<char>, after: Seq<char>, place: Seq<char>)
    requires
        crate::outside::stays_elsewhere(before, after, place),
        place == "/meta/title"@ || place == "/meta/notes"@ || place == "/meta/tags"@ || place
            == "/meta/experiment_group"@,
    ensures
        fields_of(after) == (FieldsView {
            title: if place == "/meta/title"@ {
                fields_of(after).title
            } else {
                fields_of(before).title
            },
            notes: if place == "/meta/notes"@ {
                fields_of(after).notes
            } else {
                fields_of(before).notes
            },
            tags: if place == "/meta/tags"@ {
                fields_of(after).tags
            } else {
                fields_of(before).tags
            },
            ..fields_of(before)
        }),
{
    let shown = shown_places();
    reveal_strlit("/meta/run_id");
    reveal_strlit("/meta/title");
    reveal_strlit("/meta/notes");
    reveal_strlit("/meta/timestamp");
    reveal_strlit("/meta/tags");
    reveal_strlit("/meta/description");
    reveal_strlit("/meta/document/name");
    reveal_strlit("/llm_efficiency/totals/llm_calls");
    reveal_strlit("/llm_efficiency/totals/tokens_input");
    reveal_strlit("/llm_efficiency/totals/tokens_output");
    reveal_strlit("/review_quality/findings/after_dedup");
    reveal_strlit("/review_quality/findings/by_severity/high");
    reveal_strlit("/meta/config/coordinator_enabled");
    reveal_strlit("/meta/config/llm_model");
    reveal_strlit("/meta/config/embed_engine");
    reveal_strlit("/meta/experiment_group");
    assert forall|i: int| 0 <= i < shown.len() && shown[i] != place implies
        crate::outside::reads_alike(after, before, #[trigger] shown[i]) by {
        lemma_apart(shown[i], place);
    }
    assert(place[6] == 't' || place[6] == 'n' || place[6] == 'e');
    assert(shown[0][6] == 'r' && shown[3][8] == 'm' && shown[5][6] == 'd' && shown[6][6] == 'd');
    assert(shown[7][1] == 'l' && shown[8][1] == 'l' && shown[9][1] == 'l');
    assert(shown[10][1] == 'r' && shown[11][1] == 'r');
    assert(shown[12][6] == 'c' && shown[13][6] == 'c' && shown[14][6] == 'c');
    assert(shown[1][7] == 'i' && shown[2][6] == 'n' && shown[4][7] == 'a');
}

/// Sets a member of the `meta` of a record to what a source gives, or to `null`.
fn edit_meta(record: &str, key: &str, source: Option<(&str, &str)>) -> (edit: MetaEdit)
    requires
        crate::outside::is_plain_key(key@),
    ensures
        edit@ == edit_of(record@, key@, crate::outside::source_texts(source)),
        edit matches MetaEdit::Edited(text) ==> is_edited(
            record@,
            text@,
            "/"@ + "meta"@ + "/"@ + key@,
            crate::outside::source_texts(source),
        ),
{
    if json_text(record).is_ok() && !can_take_meta(record) {
        return MetaEdit::Unfit;
    }
    proof {
        reveal_strlit("meta");
    }
    match json_set(record, "meta", key, source) {
        Ok(text) => MetaEdit::Edited(text),
        Err(message) => MetaEdit::NotJson(message),
    }
}

/// The strings that some JSON texts stand for are kept.
proof fn lemma_strings_of(list: Seq<Seq<char>>, strings: Seq<Seq<char>>)
    requires
        crate::outside::stand_for_strings(list, strings),
    ensures
        crate::outside::strings_of(list) == strings,
        crate::outside::are_strings(list),
    decreases list.len(),
{
    if list.len() > 0 {
        assert(crate::outside::json_string(list[list.len() - 1], ""@) == Some(
            strings[list.len() - 1],
        ));
        assert(crate::outside::stand_for_strings(list.drop_last(), strings.drop_last()));
        lemma_strings_of(list.drop_last(), strings.drop_last());
        assert(strings == strings.drop_last().push(strings.last()));
    } else {
        assert(strings == Seq::<Seq<char>>::empty());
    }
}

/// Sets the tags of a record. They are what the record then shows; nothing else of it changes.
pub fn set_tags(record: &str, tags: Vec<String>) -> (edit: MetaEdit)
    ensures
        edit@ == edit_of(
            record@,
            "tags"@,
            Some((crate::outside::json_of_strings(crate::text::texts(tags@)), ""@)),
        ),
        edit matches MetaEdit::Edited(text) ==> (crate::outside::prints_readably(record@)
            ==> crate::outside::json_fault(text@) is None),
        edit matches MetaEdit::Edited(text) ==> (crate::outside::json_fault(text@) is None
            ==> crate::outside::takes_inner_members(text@, "meta"@)
            && crate::outside::strings_at(text@, "/meta/tags"@) == crate::text::texts(tags@)
            && crate::outside::stays_elsewhere(record@, text@, "/meta/tags"@) && fields_of(text@)
            == (FieldsView { tags: crate::text::texts(tags@), ..fields_of(record@) })),
{
    let ghost given = crate::text::texts(tags@);
    let value = json_from_list(tags);
    proof {
        reveal_strlit("/");
        reveal_strlit("meta");
        reveal_strlit("tags");
        reveal_strlit("/meta/tags");
        assert("/meta/tags"@ == "/"@ + "meta"@ + "/"@ + "tags"@);
        lemma_strings_of(crate::outside::json_elements(value@, ""@)->0, given);
    }
    let edit = edit_meta(record, "tags", Some((value.as_str(), "")));
    proof {
        if let MetaEdit::Edited(text) = &edit {
            if crate::outside::json_fault(text@) is None {
                lemma_fields_stay(record@, text@, "/meta/tags"@);
                reveal_strlit("/meta/title");
                reveal_strlit("/meta/notes");
                assert("/meta/tags"@.len() != "/meta/title"@.len());
                assert("/meta/tags"@.len() != "/meta/notes"@.len());
            }
        }
    }
    edit
}

/// Gives a record the title that a request holds, or none. It is what the record then shows;
/// nothing else of it changes.
pub fn set_title(record: &str, body: &str) -> (edit: MetaEdit)
    ensures
        edit@ == edit_of(record@, "title"@, Some((body@, "/title"@))),
        edit matches MetaEdit::Edited(text) ==> is_edited(
            record@,
            text@,
            "/meta/title"@,
            Some((body@, "/title"@)),
        ),
        edit matches MetaEdit::Edited(text) ==> (crate::outside::json_fault(text@) is None
            ==> fields_of(text@) == (FieldsView {
            title: crate::outside::json_string(body@, "/title"@),
            ..fields_of(record@)
        })),
{
    proof {
        reveal_strlit("/");
        reveal_strlit("meta");
        reveal_strlit("title");
        reveal_strlit("/meta/title");
        assert("/meta/title"@ == "/"@ + "meta"@ + "/"@ + "title"@);
    }
    let edit = edit_meta(record, "title", Some((body, "/title")));
    proof {
        if let MetaEdit::Edited(text) = &edit {
            if crate::outside::json_fault(text@) is None {
                lemma_fields_stay(record@, text@, "/meta/title"@);
                reveal_strlit("/meta/notes");
                reveal_strlit("/meta/tags");
                assert("/meta/title"@[6] == 't' && "/meta/notes"@[6] == 'n');
                assert("/meta/title"@.len() != "/meta/tags"@.len());
            }
        }
    }
    edit
}

/// Gives a record the notes that a request holds, or none. They are what the record then shows;
/// nothing else of it changes.
pub fn set_notes(record: &str, body: &str) -> (edit: MetaEdit)
    ensures
        edit@ == edit_of(record@, "notes"@, Some((body@, "/notes"@))),
        edit matches MetaEdit::Edited(text) ==> is_edited(
            record@,
            text@,
            "/meta/notes"@,
            Some((body@, "/notes"@)),
        ),
        edit matches MetaEdit::Edited(text) ==> (crate::outside::json_fault(text@) is None
            ==> fields_of(text@) == (FieldsView {
            notes: crate::outside::json_string(body@, "/notes"@),
            ..fields_of(record@)
        })),
{
    proof {
        reveal_strlit("/");
        reveal_strlit("meta");
        reveal_strlit("notes");
        reveal_strlit("/meta/notes");
        assert("/meta/notes"@ == "/"@ + "meta"@ + "/"@ + "notes"@);
    }
    let edit = edit_meta(record, "notes", Some((body, "/notes")));
    proof {
        if let MetaEdit::Edited(text) = &edit {
            if crate::outside::json_fault(text@) is None {
                lemma_fields_stay(record@, text@, "/meta/notes"@);
                reveal_strlit("/meta/title");
                reveal_strlit("/meta/tags");
                assert("/meta/title"@[6] == 't' && "/meta/notes"@[6] == 'n');
                assert("/meta/notes"@.len() != "/meta/tags"@.len());
            }
        }
    }
    edit
}

/// The group that a request names, if it names one by a string.
pub fn requested_group(body: &str) -> (group: Option<String>)
    ensures
        crate::outside::optional_text(group) == crate::outside::json_string(
            body@,
            "/experiment_group"@,
        ),
{
    json_str(body, "/experiment_group")
}

/// The source of a group: the JSON text of its name, or nothing.
pub open spec fn group_source(group: Option<Seq<char>>) -> Option<(Seq<char>, Seq<char>)> {
    match group {
        Some(g) => Some((crate::outside::json_of_string(g), ""@)),
        None => None,
    }
}

/// Whether an edited record is in a group, or in none, and otherwise as it was, and can be edited
/// again, wherever it can be read; and it can be read where the record prints readably.
pub open spec fn is_regrouped(
    record: Seq<char>,
    edited: Seq<char>,
    group: Option<Seq<char>>,
) -> bool {
    &&& crate::outside::prints_readably(record) ==> crate::outside::json_fault(edited) is None
    &&& crate::outside::json_fault(edited) is None ==> {
        &&& crate::outside::takes_inner_members(edited, "meta"@)
        &&& crate::outside::json_string(edited, "/meta/experiment_group"@) == group
        &&& crate::outside::stays_elsewhere(record, edited, "/meta/experiment_group"@)
        &&& fields_of(edited) == fields_of(record)
    }
}

/// Puts a record into a group, or into none. Nothing else of it changes.
pub fn set_group(record: &str, group: Option<&str>) -> (edit: MetaEdit)
    ensures
        edit@ == edit_of(
            record@,
            "experiment_group"@,
            group_source(crate::outside::optional_slice(group)),
        ),
        edit matches MetaEdit::Edited(text) ==> is_regrouped(
            record@,
            text@,
            crate::outside::optional_slice(group),
        ),
{
    proof {
        reveal_strlit("/");
        reveal_strlit("meta");
        reveal_strlit("experiment_group");
        reveal_strlit("/meta/experiment_group");
        assert("/meta/experiment_group"@ == "/"@ + "meta"@ + "/"@ + "experiment_group"@);
    }
    let edit = match group {
        Some(g) => {
            let value = json_from_str(g);
            edit_meta(record, "experiment_group", Some((value.as_str(), "")))
        },
        None => edit_meta(record, "experiment_group", None),
    };
    proof {
        if let MetaEdit::Edited(text) = &edit {
            if crate::outside::json_fault(text@) is None {
                lemma_fields_stay(record@, text@, "/meta/experiment_group"@);
                reveal_strlit("/meta/title");
                reveal_strlit("/meta/notes");
                reveal_strlit("/meta/tags");
                assert("/meta/experiment_group"@.len() > "/meta/title"@.len());
                assert("/meta/experiment_group"@.len() > "/meta/notes"@.len());
                assert("/meta/experiment_group"@.len() > "/meta/tags"@.len());
            }
        }
    }
    edit
}

// ── Listing and finding records ──

/// The models of some summaries.
pub open spec fn summaries(list: Seq<RunSummary>) -> Seq<SummaryView> {
    list.map_values(|s: RunSummary| s@)
}

/// Whether a record is newer than another.
pub open spec fn is_newer(a: SummaryView, b: SummaryView) -> bool {
    crate::text::comes_before(b.timestamp, a.timestamp)
}

/// The summaries with the newest first; those of one time stay in the order they came in.
pub open spec fn newest_first(list: Seq<SummaryView>) -> Seq<SummaryView> {
    crate::lists::ordered(list, |a: SummaryView, b: SummaryView| is_newer(a, b))
}

/// Puts a summary in its place.
fn put_summary(list: &mut Vec<RunSummary>, summary: RunSummary)
    ensures
        summaries(final(list)@) == crate::lists::put(
            summaries(old(list)@),
            summary@,
            |a: SummaryView, b: SummaryView| is_newer(a, b),
        ),
{
    let ghost first = |a: SummaryView, b: SummaryView| is_newer(a, b);
    let ghost before = list@;
    let ghost models = summaries(before);
    let mut k: usize = list.len();
    while k > 0 && precedes(list[k - 1].timestamp.as_str(), summary.timestamp.as_str())
        invariant
            k <= list.len(),
            list@ == before,
            models == summaries(before),
            first == (|a: SummaryView, b: SummaryView| is_newer(a, b)),
            forall|i: int| k <= i < models.len() ==> first(summary@, #[trigger] models[i]),
        decreases k,
    {
        assert(models[k - 1] == before[k - 1]@);
        k = k - 1;
    }
    proof {
        if k > 0 {
            assert(models[k - 1] == before[k - 1]@);
        }
        crate::lists::lemma_put_split(models, summary@, first, k as int);
    }
    list.insert(k, summary);
    assert(summaries(list@) == models.insert(k as int, summary@));
}

/// The summaries with the newest first.
pub fn sort_newest_first(list: Vec<RunSummary>) -> (sorted: Vec<RunSummary>)
    ensures
        summaries(sorted@) == newest_first(summaries(list@)),
{
    let ghost all = summaries(list@);
    let ghost given = list@;
    let ghost first = |a: SummaryView, b: SummaryView| is_newer(a, b);
    let mut sorted: Vec<RunSummary> = Vec::new();
    assert(summaries(sorted@) == crate::lists::ordered(all.take(0), first));
    for summary in iter: list
        invariant
            iter.seq() == given,
            all == summaries(given),
            first == (|a: SummaryView, b: SummaryView| is_newer(a, b)),
            summaries(sorted@) == crate::lists::ordered(all.take(iter.index() as int), first),
    {
        proof {
            let i = iter.index() as int;
            assert(all.take(i + 1).drop_last() == all.take(i));
            assert(all.take(i + 1).last() == summary@);
        }
        put_summary(&mut sorted, summary);
    }
    assert(all.take(all.len() as int) == all);
    sorted
}

/// The names of some groups in order.
pub open spec fn names_in_order(names: Seq<Seq<char>>) -> Seq<Seq<char>> {
    crate::lists::ordered(names, |a: Seq<char>, b: Seq<char>| crate::text::comes_before(a, b))
}

/// Puts a name in its place.
fn put_name(list: &mut Vec<String>, name: String)
    ensures
        crate::text::texts(final(list)@) == crate::lists::put(
            crate::text::texts(old(list)@),
            name@,
            |a: Seq<char>, b: Seq<char>| crate::text::comes_before(a, b),
        ),
{
    let ghost first = |a: Seq<char>, b: Seq<char>| crate::text::comes_before(a, b);
    let ghost before = list@;
    let ghost models = crate::text::texts(before);
    let mut k: usize = list.len();
    while k > 0 && precedes(name.as_str(), list[k - 1].as_str())
        invariant
            k <= list.len(),
            list@ == before,
            models == crate::text::texts(before),
            first == (|a: Seq<char>, b: Seq<char>| crate::text::comes_before(a, b)),
            forall|i: int| k <= i < models.len() ==> first(name@, #[trigger] models[i]),
        decreases k,
    {
        assert(models[k - 1] == before[k - 1]@);
        k = k - 1;
    }
    proof {
        if k > 0 {
            assert(models[k - 1] == before[k - 1]@);
        }
        crate::lists::lemma_put_split(models, name@, first, k as int);
    }
    list.insert(k, name);
    assert(crate::text::texts(list@) == models.insert(k as int, name@));
}

/// The names of some groups in order.
pub fn sort_names(names: Vec<String>) -> (sorted: Vec<String>)
    ensures
        crate::text::texts(sorted@) == names_in_order(crate::text::texts(names@)),
{
    let ghost all = crate::text::texts(names@);
    let ghost given = names@;
    let ghost first = |a: Seq<char>, b: Seq<char>| crate::text::comes_before(a, b);
    let mut sorted: Vec<String> = Vec::new();
    assert(crate::text::texts(sorted@) == crate::lists::ordered(all.take(0), first));
    for name in iter: names
        invariant
            iter.seq() == given,
            all == crate::text::texts(given),
            first == (|a: Seq<char>, b: Seq<char>| crate::text::comes_before(a, b)),
            crate::text::texts(sorted@) == crate::lists::ordered(
                all.take(iter.index() as int),
                first,
            ),
    {
        proof {
            let i = iter.index() as int;
            assert(all.take(i + 1).drop_last() == all.take(i));
            assert(all.take(i + 1).last() == name@);
        }
        put_name(&mut sorted, name);
    }
    assert(all.take(all.len() as int) == all);
    sorted
}

/// The names of some files.
pub open spec fn stem_texts(stems: Seq<Option<String>>) -> Seq<Option<Seq<char>>> {
    stems.map_values(|s: Option<String>| crate::outside::optional_text(s))
}

/// The place of the record of a run: that of the first file with its name.
pub open spec fn run_place(stems: Seq<Option<Seq<char>>>, run_id: Seq<char>) -> Option<int>
    decreases stems.len(),
{
    if stems.len() == 0 {
        None
    } else {
        match run_place(stems.drop_last(), run_id) {
            Some(i) => Some(i),
            None => if stems.last() == Some(run_id) {
                Some(stems.len() - 1)
            } else {
                None
            },
        }
    }
}

/// The first file with a name stays the first, whatever comes behind it.
proof fn lemma_first_stays(stems: Seq<Option<Seq<char>>>, run_id: Seq<char>, n: int)
    requires
        0 <= n <= stems.len(),
        run_place(stems.take(n), run_id) is Some,
    ensures
        run_place(stems, run_id) == run_place(stems.take(n), run_id),
    decreases stems.len() - n,
{
    if n < stems.len() {
        assert(stems.take(n + 1).drop_last() == stems.take(n));
        lemma_first_stays(stems, run_id, n + 1);
    } else {
        assert(stems.take(n) == stems);
    }
}

/// The place of a run is that of a file with its name.
proof fn lemma_place_has_name(stems: Seq<Option<Seq<char>>>, run_id: Seq<char>)
    ensures
        run_place(stems, run_id) matches Some(i) ==> 0 <= i < stems.len() && stems[i] == Some(
            run_id,
        ),
    decreases stems.len(),
{
    if stems.len() > 0 {
        lemma_place_has_name(stems.drop_last(), run_id);
    }
}

/// Where there is a file with the name of a run, the run has a place, no later than that file.
proof fn lemma_name_has_place(stems: Seq<Option<Seq<char>>>, run_id: Seq<char>, k: int)
    requires
        0 <= k < stems.len(),
        stems[k] == Some(run_id),
    ensures
        run_place(stems, run_id) matches Some(i) && i <= k,
    decreases stems.len(),
{
    if k < stems.len() - 1 {
        lemma_name_has_place(stems.drop_last(), run_id, k);
    } else {
        lemma_place_has_name(stems.drop_last(), run_id);
    }
}

/// The place of the record of a run: that of the first file with its name.
pub fn find_run(stems: &Vec<Option<String>>, run_id: &str) -> (found: Option<usize>)
    ensures
        match found {
            Some(i) => i < stems@.len() && run_place(stem_texts(stems@), run_id@) == Some(
                i as int,
            ),
            None => run_place(stem_texts(stems@), run_id@) is None,
        },
{
    let ghost all = stem_texts(stems@);
    let mut i: usize = 0;
    assert(all.take(0).len() == 0);
    while i < stems.len()
        invariant
            i <= stems.len(),
            all == stem_texts(stems@),
            run_place(all.take(i as int), run_id@) is None,
        decreases stems.len() - i,
    {
        assert(all.take(i + 1).drop_last() == all.take(i as int));
        assert(all.take(i + 1).last() == crate::outside::optional_text(stems@[i as int]));
        if let Some(stem) = &stems[i] {
            if same_text(stem.as_str(), run_id) {
                proof {
                    lemma_first_stays(all, run_id@, i + 1);
                }
                return Some(i);
            }
        }
        i = i + 1;
    }
    assert(all.take(i as int) == all);
    None
}

/// A file of a run.
#[derive(Debug)]
pub struct RunFile {
    /// The group that the file lies in.
    pub group: Option<String>,
    /// Its name, without the extension.
    pub stem: Option<String>,
    /// What is in it, if it could be read.
    pub record: Option<String>,
}

/// The model of a file of a run.
#[verifier::ext_equal]
pub struct RunFileView {
    pub group: Option<Seq<char>>,
    pub stem: Option<Seq<char>>,
    pub record: Option<Seq<char>>,
}

impl View for RunFile {
    type V = RunFileView;

    open spec fn view(&self) -> RunFileView {
        RunFileView {
            group: crate::outside::optional_text(self.group),
            stem: crate::outside::optional_text(self.stem),
            record: crate::outside::optional_text(self.record),
        }
    }
}

/// The models of some files.
pub open spec fn file_views(files: Seq<RunFile>) -> Seq<RunFileView> {
    files.map_values(|f: RunFile| f@)
}

/// The path of a file below the directory of the runs, without its extension.
pub open spec fn path_of(file: RunFileView) -> Option<Seq<char>> {
    match file.stem {
        Some(stem) => Some(
            match file.group {
                Some(group) => group + "/"@ + stem,
                None => stem,
            },
        ),
        None => None,
    }
}

/// The paths of some files.
pub open spec fn paths_of(files: Seq<RunFileView>) -> Seq<Option<Seq<char>>> {
    files.map_values(|f: RunFileView| path_of(f))
}

/// The names of some files.
pub open spec fn names_of(files: Seq<RunFileView>) -> Seq<Option<Seq<char>>> {
    files.map_values(|f: RunFileView| f.stem)
}

/// The place of the file of a run among some files: that of the file with its id as the path, or
/// else that of the first file with its name, in whatever group.
pub open spec fn file_place(files: Seq<RunFileView>, run_id: Seq<char>) -> Option<int> {
    match run_place(paths_of(files), run_id) {
        Some(i) => Some(i),
        None => run_place(names_of(files), run_id),
    }
}

/// What became of a change to a run.
#[derive(Debug)]
pub enum RunChange {
    /// There is no such run.
    Missing,
    /// Its file could not be read.
    Unreadable,
    /// Its record is no JSON, for a reason.
    NotJson(String),
    /// Its record is no object, or its `meta` is none.
    Unfit,
    /// The run at this place was changed.
    Changed(usize),
}

/// The path of a file below the directory of the runs.
fn file_path(file: &RunFile) -> (path: Option<String>)
    ensures
        crate::outside::optional_text(path) == path_of(file@),
{
    match &file.stem {
        Some(stem) => {
            let group = match &file.group {
                Some(g) => Some(g.as_str()),
                None => None,
            };
            Some(inner_group(group, stem.as_str()))
        },
        None => None,
    }
}

/// The place of the file of a run among some files.
pub fn find_file(files: &Vec<RunFile>, run_id: &str) -> (found: Option<usize>)
    ensures
        match found {
            Some(i) => i < files@.len() && file_place(file_views(files@), run_id@) == Some(
                i as int,
            ),
            None => file_place(file_views(files@), run_id@) is None,
        },
{
    let ghost views = file_views(files@);
    let mut paths: Vec<Option<String>> = Vec::new();
    let mut names: Vec<Option<String>> = Vec::new();
    for i in 0..files.len()
        invariant
            views == file_views(files@),
            paths@.len() == i,
            names@.len() == i,
            stem_texts(paths@) == paths_of(views).take(i as int),
            stem_texts(names@) == names_of(views).take(i as int),
    {
        let path = file_path(&files[i]);
        let name = files[i].stem.clone();
        let ghost paths_before = paths@;
        let ghost names_before = names@;
        paths.push(path);
        names.push(name);
        assert(views[i as int] == files@[i as int]@);
        assert(stem_texts(paths@) == stem_texts(paths_before).push(path_of(views[i as int])));
        assert(stem_texts(names@) == stem_texts(names_before).push(views[i as int].stem));
    }
    assert(stem_texts(paths@) == paths_of(views));
    assert(stem_texts(names@) == names_of(views));
    match find_run(&paths, run_id) {
        Some(i) => Some(i),
        None => find_run(&names, run_id),
    }
}

/// Whether a change to a run by an edit of its record leaves the files as they then are. Only the
/// record of the run is another one, and only if the edit succeeds.
pub open spec fn is_change_by(
    before: Seq<RunFileView>,
    after: Seq<RunFileView>,
    run_id: Seq<char>,
    change: RunChange,
    edit: spec_fn(Seq<char>) -> EditView,
) -> bool {
    match file_place(before, run_id) {
        Some(i) => match before[i].record {
            Some(record) => match edit(record) {
                EditView::Edited(text) => change is Changed && change->Changed_0 == i && after
                    == before.update(i, RunFileView { record: Some(text), ..before[i] }),
                EditView::NotJson(message) => after == before && (change matches RunChange::NotJson(
                    m,
                ) && m@ == message),
                EditView::Unfit => after == before && change is Unfit,
            },
            None => after == before && change is Unreadable,
        },
        None => after == before && change is Missing,
    }
}

/// Whether the record of a changed run holds at a place what a source gives, and is otherwise as it
/// was.
pub open spec fn is_changed_at(
    before: Seq<RunFileView>,
    after: Seq<RunFileView>,
    i: int,
    place: Seq<char>,
    source: Option<(Seq<char>, Seq<char>)>,
) -> bool {
    match (before[i].record, after[i].record) {
        (Some(record), Some(text)) => is_edited(record, text, place, source),
        _ => false,
    }
}

/// Keeps the edit of the record of a file, if it succeeded.
fn keep_edit(files: &mut Vec<RunFile>, i: usize, edit: MetaEdit) -> (change: RunChange)
    requires
        i < old(files)@.len(),
    ensures
        match edit {
            MetaEdit::Edited(text) => change == RunChange::Changed(i) && file_views(final(files)@)
                == file_views(old(files)@).update(
                i as int,
                (RunFileView { record: Some(text@), ..file_views(old(files)@)[i as int] }),
            ),
            MetaEdit::NotJson(message) => *final(files) == *old(files) && (change
                matches RunChange::NotJson(m) && m@ == message@),
            MetaEdit::Unfit => *final(files) == *old(files) && change is Unfit,
        },
{
    let ghost before = file_views(files@);
    match edit {
        MetaEdit::Edited(text) => {
            let group = files[i].group.clone();
            let stem = files[i].stem.clone();
            let file = RunFile { group, stem, record: Some(text) };
            files.set(i, file);
            proof {
                assert(file@ == (RunFileView { record: Some(text@), ..before[i as int] }));
                assert(file_views(files@) == before.update(i as int, file@));
            }
            RunChange::Changed(i)
        },
        MetaEdit::NotJson(message) => RunChange::NotJson(message),
        MetaEdit::Unfit => RunChange::Unfit,
    }
}

/// Gives the run with an id the title that a request holds, or none, in whatever group it lies. It
/// stays in its group, and no other run changes.
pub fn retitle_run(files: &mut Vec<RunFile>, run_id: &str, body: &str) -> (change: RunChange)
    ensures
        is_change_by(
            file_views(old(files)@),
            file_views(final(files)@),
            run_id@,
            change,
            |record: Seq<char>| edit_of(record, "title"@, Some((body@, "/title"@))),
        ),
        change matches RunChange::Changed(i) ==> is_changed_at(
            file_views(old(files)@),
            file_views(final(files)@),
            i as int,
            "/meta/title"@,
            Some((body@, "/title"@)),
        ),
{
    match find_file(files, run_id) {
        Some(i) => {
            assert(file_views(files@)[i as int] == files@[i as int]@);
            let edit = match &files[i].record {
                Some(record) => set_title(record.as_str(), body),
                None => {
                    return RunChange::Unreadable;
                },
            };
            keep_edit(files, i, edit)
        },
        None => RunChange::Missing,
    }
}

/// Gives the run with an id the notes that a request holds, or none, in whatever group it lies. It
/// stays in its group, and no other run changes.
pub fn renote_run(files: &mut Vec<RunFile>, run_id: &str, body: &str) -> (change: RunChange)
    ensures
        is_change_by(
            file_views(old(files)@),
            file_views(final(files)@),
            run_id@,
            change,
            |record: Seq<char>| edit_of(record, "notes"@, Some((body@, "/notes"@))),
        ),
        change matches RunChange::Changed(i) ==> is_changed_at(
            file_views(old(files)@),
            file_views(final(files)@),
            i as int,
            "/meta/notes"@,
            Some((body@, "/notes"@)),
        ),
{
    match find_file(files, run_id) {
        Some(i) => {
            assert(file_views(files@)[i as int] == files@[i as int]@);
            let edit = match &files[i].record {
                Some(record) => set_notes(record.as_str(), body),
                None => {
                    return RunChange::Unreadable;
                },
            };
            keep_edit(files, i, edit)
        },
        None => RunChange::Missing,
    }
}

/// The group that a file in an inner directory of a group lies in.
pub fn inner_group(outer: Option<&str>, name: &str) -> (group: String)
    ensures
        group@ == (match outer {
            Some(g) => g@ + "/"@ + name@,
            None => name@,
        }),
{
    match outer {
        Some(g) => {
            let mut group = g.to_owned();
            group.append("/");
            group.append(name);
            group
        },
        None => name.to_owned(),
    }
}

/// The directory of a group: one under the base, or the base itself where there is no group.
pub fn group_directory(base: &str, group: Option<&str>) -> (dir: String)
    ensures
        dir@ == (match group {
            Some(g) => if g@.len() == 0 {
                base@
            } else {
                base@ + "/"@ + g@
            },
            None => base@,
        }),
{
    let mut dir = base.to_owned();
    if let Some(g) = group {
        if g.unicode_len() > 0 {
            dir.append("/");
            dir.append(g);
        }
    }
    dir
}

// ── Laws ──

/// The newest records come first, none is lost, and those of one time keep their order.
pub proof fn records_are_listed_newest_first(list: Seq<SummaryView>, time: Seq<char>)
    ensures
        forall|i: int, j: int|
            0 <= i < j < newest_first(list).len() ==> !is_newer(
                #[trigger] newest_first(list)[j],
                #[trigger] newest_first(list)[i],
            ),
        newest_first(list).to_multiset() == list.to_multiset(),
        newest_first(list).filter(|s: SummaryView| s.timestamp == time) == list.filter(
            |s: SummaryView| s.timestamp == time,
        ),
{
    let first = |a: SummaryView, b: SummaryView| is_newer(a, b);
    let keep = |s: SummaryView| s.timestamp == time;
    assert forall|a: SummaryView, b: SummaryView| #[trigger] first(a, b) implies !first(b, a) by {
        crate::text::texts_are_ordered(a.timestamp, b.timestamp);
    }
    assert forall|a: SummaryView, b: SummaryView, c: SummaryView|
        !(#[trigger] first(a, b)) && !(#[trigger] first(b, c)) implies !first(a, c) by {
        if first(a, c) {
            crate::text::order_is_transitive(c.timestamp, a.timestamp, b.timestamp);
        }
    }
    crate::lists::sorting_puts_in_order(list, first);
    crate::lists::sorting_keeps_the_elements(list, first);
    assert forall|a: SummaryView, b: SummaryView| keep(a) && keep(b) implies !#[trigger] first(
        a,
        b,
    ) by {
        crate::text::texts_are_ordered(a.timestamp, b.timestamp);
    }
    crate::lists::sorting_keeps_ties(list, first, keep);
}

/// A run whose name no other file has is found in whatever group it lies.
pub proof fn a_run_is_found_in_whatever_group(files: Seq<RunFileView>, i: int, run_id: Seq<char>)
    requires
        0 <= i < files.len(),
        files[i].stem == Some(run_id),
        forall|k: int| 0 <= k < files.len() && k != i ==> (#[trigger] files[k]).stem != Some(run_id),
        !run_id.contains('/'),
    ensures
        file_place(files, run_id) == Some(i),
{
    let names = names_of(files);
    let paths = paths_of(files);
    lemma_name_has_place(names, run_id, i);
    lemma_place_has_name(names, run_id);
    lemma_place_has_name(paths, run_id);
    if let Some(k) = run_place(paths, run_id) {
        if let (Some(group), Some(stem)) = (files[k].group, files[k].stem) {
            reveal_strlit("/");
            assert((group + "/"@ + stem)[group.len() as int] == '/');
        }
        assert(files[k].stem == Some(run_id));
    }
}

/// A file with the id of a run as its path is the file of that run, whatever files of that name
/// lie in groups.
pub proof fn a_run_is_found_by_its_path(files: Seq<RunFileView>, i: int, run_id: Seq<char>)
    requires
        0 <= i < files.len(),
        path_of(files[i]) == Some(run_id),
        forall|k: int|
            0 <= k < files.len() && k != i ==> path_of(#[trigger] files[k]) != Some(run_id),
    ensures
        file_place(files, run_id) == Some(i),
{
    let paths = paths_of(files);
    lemma_name_has_place(paths, run_id, i);
    lemma_place_has_name(paths, run_id);
    let k = run_place(paths, run_id)->0;
    assert(paths[k] == path_of(files[k]));
}

/// A run that was put into a group takes a new title there. It is the one that changes, it stays
/// in that group under its name, and no other run changes. Its record then holds the title and the
/// group, and elsewhere what it held before both changes, wherever it can be read.
pub proof fn a_moved_run_takes_a_title(
    record: Seq<char>,
    group: Option<Seq<char>>,
    moved_record: Seq<char>,
    files: Seq<RunFileView>,
    i: int,
    run_id: Seq<char>,
    body: Seq<char>,
    retitled: Seq<RunFileView>,
    change: RunChange,
)
    requires
        is_regrouped(record, moved_record, group),
        crate::outside::json_fault(moved_record) is None,
        file_place(files, run_id) == Some(i),
        files[i].record == Some(moved_record),
        is_change_by(
            files,
            retitled,
            run_id,
            change,
            |record: Seq<char>| edit_of(record, "title"@, Some((body, "/title"@))),
        ),
        change matches RunChange::Changed(k) ==> is_changed_at(
            files,
            retitled,
            k as int,
            "/meta/title"@,
            Some((body, "/title"@)),
        ),
    ensures
        change matches RunChange::Changed(k) && k == i,
        retitled.len() == files.len(),
        forall|k: int| 0 <= k < files.len() && k != i ==> #[trigger] retitled[k] == files[k],
        retitled[i].group == files[i].group,
        retitled[i].stem == files[i].stem,
        retitled[i].record matches Some(text) && {
            &&& crate::outside::prints_readably(moved_record) && crate::outside::is_textual(
                Some((body, "/title"@)),
            ) ==> crate::outside::json_fault(text) is None
            &&& crate::outside::json_fault(text) is None ==> {
                &&& crate::outside::json_string(text, "/meta/title"@)
                    == crate::outside::json_string(body, "/title"@)
                &&& crate::outside::json_string(text, "/meta/experiment_group"@) == group
                &&& forall|pointer: Seq<char>|
                    crate::outside::is_apart(pointer, "/meta/title"@) && crate::outside::is_apart(
                        pointer,
                        "/meta/experiment_group"@,
                    ) ==> #[trigger] crate::outside::reads_alike(text, record, pointer)
            }
        },
{
    lemma_place_has_name(paths_of(files), run_id);
    lemma_place_has_name(names_of(files), run_id);
    let text = retitled[i].record->0;
    if crate::outside::json_fault(text) is None {
        let title = "/meta/title"@;
        let place = "/meta/experiment_group"@;
        assert(crate::outside::is_apart(place, title)) by {
            reveal_strlit("/meta/title");
            reveal_strlit("/meta/experiment_group");
            assert(place[6] == 'e' && title[6] == 't');
            lemma_apart(place, title);
        }
        assert(crate::outside::reads_alike(text, moved_record, place));
        assert forall|pointer: Seq<char>|
            crate::outside::is_apart(pointer, title) && crate::outside::is_apart(
                pointer,
                place,
            ) implies #[trigger] crate::outside::reads_alike(text, record, pointer) by {
            assert(crate::outside::reads_alike(text, moved_record, pointer));
            assert(crate::outside::reads_alike(moved_record, record, pointer));
        }
    }
}

/// Group names come in order, and none is lost.
pub proof fn names_are_listed_in_order(names: Seq<Seq<char>>)
    ensures
        forall|i: int, j: int|
            0 <= i < j < names_in_order(names).len() ==> !crate::text::comes_before(
                #[trigger] names_in_order(names)[j],
                #[trigger] names_in_order(names)[i],
            ),
        names_in_order(names).to_multiset() == names.to_multiset(),
{
    let first = |a: Seq<char>, b: Seq<char>| crate::text::comes_before(a, b);
    assert forall|a: Seq<char>, b: Seq<char>| #[trigger] first(a, b) implies !first(b, a) by {
        crate::text::texts_are_ordered(a, b);
    }
    assert forall|a: Seq<char>, b: Seq<char>, c: Seq<char>|
        !(#[trigger] first(a, b)) && !(#[trigger] first(b, c)) implies !first(a, c) by {
        if first(a, c) {
            crate::text::order_is_transitive(a, c, b);
        }
    }
    crate::lists::sorting_puts_in_order(names, first);
    crate::lists::sorting_keeps_the_elements(names, first);
}

/// Of two records in the list the later one is not the newer: its time does not come behind that of
/// the sooner one.
pub proof fn times_go_down_in_the_list(list: Seq<SummaryView>, i: int, j: int)
    requires
        0 <= i < j < newest_first(list).len(),
    ensures
        newest_first(list)[i].timestamp == newest_first(list)[j].timestamp
            || crate::text::comes_before(
            newest_first(list)[j].timestamp,
            newest_first(list)[i].timestamp,
        ),
{
    records_are_listed_newest_first(list, Seq::empty());
    let (a, b) = (newest_first(list)[i], newest_first(list)[j]);
    assert(!is_newer(b, a));
    crate::text::texts_are_ordered(a.timestamp, b.timestamp);
}

/// A record shows the texts that it holds at their places, and a question mark, or nothing, where it
/// holds none.
pub proof fn a_record_shows_its_texts(record: Seq<char>, group: Option<Seq<char>>, place: usize)
    ensures
        ({
            let s = summary_with(fields_of(record), group, place);
            let at = |pointer: Seq<char>| crate::outside::json_string(record, pointer);
            &&& s.place == place
            &&& s.experiment_group == group
            &&& s.title == at("/meta/title"@)
            &&& s.notes == at("/meta/notes"@)
            &&& at("/meta/run_id"@) matches Some(t) ==> s.run_id == t
            &&& at("/meta/run_id"@) is None ==> s.run_id == "?"@
            &&& at("/meta/timestamp"@) matches Some(t) ==> s.timestamp == t
            &&& at("/meta/timestamp"@) is None ==> s.timestamp == "?"@
            &&& at("/meta/description"@) matches Some(t) ==> s.description == t
            &&& at("/meta/description"@) is None ==> s.description.len() == 0
            &&& at("/meta/document/name"@) matches Some(t) ==> s.document_name == t
            &&& at("/meta/document/name"@) is None ==> s.document_name == "?"@
            &&& at("/meta/config/llm_model"@) matches Some(t) ==> s.llm_model == t
            &&& at("/meta/config/llm_model"@) is None ==> s.llm_model == "?"@
            &&& at("/meta/config/embed_engine"@) matches Some(t) ==> s.embed_engine == t
            &&& at("/meta/config/embed_engine"@) is None ==> s.embed_engine == "?"@
        }),
{
}

/// A record shows the numbers that it holds at their places, or 0, and that coordination was on only
/// where it says so.
pub proof fn a_record_shows_its_numbers(record: Seq<char>, group: Option<Seq<char>>, place: usize)
    ensures
        ({
            let s = summary_with(fields_of(record), group, place);
            let at = |pointer: Seq<char>| crate::outside::json_number(record, pointer);
            &&& at("/llm_efficiency/totals/llm_calls"@) matches Some(n) ==> s.llm_calls == n
            &&& at("/llm_efficiency/totals/llm_calls"@) is None ==> s.llm_calls == 0
            &&& at("/llm_efficiency/totals/tokens_input"@) matches Some(n) ==> s.tokens_input == n
            &&& at("/llm_efficiency/totals/tokens_input"@) is None ==> s.tokens_input == 0
            &&& at("/llm_efficiency/totals/tokens_output"@) matches Some(n) ==> s.tokens_output == n
            &&& at("/llm_efficiency/totals/tokens_output"@) is None ==> s.tokens_output == 0
            &&& at("/review_quality/findings/after_dedup"@) matches Some(n) ==> s.total_findings == n
            &&& at("/review_quality/findings/after_dedup"@) is None ==> s.total_findings == 0
            &&& at("/review_quality/findings/by_severity/high"@) matches Some(n) ==> s.high_findings
                == n
            &&& at("/review_quality/findings/by_severity/high"@) is None ==> s.high_findings == 0
            &&& s.coordinator_enabled <==> crate::outside::json_truth(
                record,
                "/meta/config/coordinator_enabled"@,
            ) == Some(true)
        }),
{
}

/// The strings of some elements are read one by one; what is no string is left out.
pub proof fn strings_are_read_one_by_one(a: Seq<Seq<char>>, b: Seq<Seq<char>>)
    ensures
        crate::outside::strings_of(a + b) == crate::outside::strings_of(a)
            + crate::outside::strings_of(b),
        a.len() == 0 ==> crate::outside::strings_of(a).len() == 0,
        a.len() == 1 ==> crate::outside::strings_of(a) == (match crate::outside::json_string(
            a[0],
            ""@,
        ) {
            Some(s) => seq![s],
            None => Seq::empty(),
        }),
    decreases b.len(),
{
    if b.len() == 0 {
        assert(a + b =~= a);
        assert(crate::outside::strings_of(a) + crate::outside::strings_of(b)
            =~= crate::outside::strings_of(a));
    } else {
        assert((a + b).drop_last() =~= a + b.drop_last());
        assert((a + b).last() == b.last());
        strings_are_read_one_by_one(a, b.drop_last());
        assert(crate::outside::strings_of(a + b) =~= crate::outside::strings_of(a)
            + crate::outside::strings_of(b));
    }
    if a.len() == 1 {
        assert(a.drop_last() =~= Seq::<Seq<char>>::empty());
        assert(crate::outside::strings_of(a.drop_last()) =~= Seq::<Seq<char>>::empty());
        if let Some(s) = crate::outside::json_string(a[0], ""@) {
            assert(crate::outside::strings_of(a) =~= seq![s]);
        }
    }
}

/// A record shows the strings among its tags.
pub proof fn a_record_shows_its_tags(record: Seq<char>, group: Option<Seq<char>>, place: usize)
    ensures
        ({
            let s = summary_with(fields_of(record), group, place);
            &&& crate::outside::json_elements(record, "/meta/tags"@) matches Some(list) ==> s.tags
                == crate::outside::strings_of(list)
            &&& crate::outside::json_elements(record, "/meta/tags"@) is None ==> s.tags.len() == 0
        }),
{
}

/// The place of a run is that of the first file with its whole name, if there is one.
pub proof fn the_first_file_of_a_name_counts(
    a: Seq<Option<Seq<char>>>,
    b: Seq<Option<Seq<char>>>,
    run_id: Seq<char>,
)
    ensures
        run_place(a + b, run_id) == (match run_place(a, run_id) {
            Some(i) => Some(i),
            None => match run_place(b, run_id) {
                Some(i) => Some(a.len() + i),
                None => None,
            },
        }),
        a.len() == 0 ==> run_place(a, run_id) is None,
        a.len() == 1 ==> run_place(a, run_id) == (if a[0] == Some(run_id) {
            Some(0int)
        } else {
            None
        }),
    decreases b.len(),
{
    if b.len() == 0 {
        assert(a + b =~= a);
    } else {
        assert((a + b).drop_last() =~= a + b.drop_last());
        assert((a + b).last() == b.last());
        the_first_file_of_a_name_counts(a, b.drop_last(), run_id);
    }
    if a.len() == 1 {
        assert(a.drop_last() =~= Seq::<Option<Seq<char>>>::empty());
        assert(run_place(a.drop_last(), run_id) is None);
    }
}

/// The path of a file is its name, behind the group that it lies in and a slash.
pub proof fn a_path_is_a_group_and_a_name(
    group: Seq<char>,
    stem: Seq<char>,
    record: Option<Seq<char>>,
)
    ensures
        path_of(RunFileView { group: None, stem: Some(stem), record }) == Some(stem),
        path_of(RunFileView { group: Some(group), stem: Some(stem), record }) == Some(
            group + "/"@ + stem,
        ),
        path_of(RunFileView { group: Some(group), stem: None, record }) is None,
        path_of(RunFileView { group: None, stem: None, record }) is None,
{
}

/// The file of a run is the first with its id as the path; where there is none, the first with its
/// id as the name; and where there is none either, there is no such run.
pub proof fn the_file_of_a_run_is_found_by_path_or_name(
    files: Seq<RunFileView>,
    run_id: Seq<char>,
    i: int,
)
    ensures
        0 <= i < files.len() && path_of(files[i]) == Some(run_id) && (forall|k: int|
            0 <= k < i ==> path_of(#[trigger] files[k]) != Some(run_id)) ==> file_place(
            files,
            run_id,
        ) == Some(i),
        (forall|k: int| 0 <= k < files.len() ==> path_of(#[trigger] files[k]) != Some(run_id)) && 0
            <= i < files.len() && files[i].stem == Some(run_id) && (forall|k: int|
            0 <= k < i ==> (#[trigger] files[k]).stem != Some(run_id)) ==> file_place(files, run_id)
            == Some(i),
        (forall|k: int|
            0 <= k < files.len() ==> path_of(#[trigger] files[k]) != Some(run_id) && files[k].stem
                != Some(run_id)) ==> file_place(files, run_id) is None,
{
    let paths = paths_of(files);
    let names = names_of(files);
    lemma_place_has_name(paths, run_id);
    lemma_place_has_name(names, run_id);
    assert forall|k: int| 0 <= k < files.len() implies paths[k] == path_of(#[trigger] files[k])
        && names[k] == files[k].stem by {}
    if 0 <= i < files.len() && path_of(files[i]) == Some(run_id) {
        assert(paths[i] == Some(run_id));
        lemma_name_has_place(paths, run_id, i);
        let p = run_place(paths, run_id)->0;
        assert(paths[p] == path_of(files[p]));
    }
    if 0 <= i < files.len() && files[i].stem == Some(run_id) {
        assert(names[i] == Some(run_id));
        lemma_name_has_place(names, run_id, i);
        let p = run_place(names, run_id)->0;
        assert(names[p] == files[p].stem);
    }
    if run_place(paths, run_id) is Some {
        let p = run_place(paths, run_id)->0;
        assert(paths[p] == path_of(files[p]));
    }
    if run_place(names, run_id) is Some {
        let p = run_place(names, run_id)->0;
        assert(names[p] == files[p].stem);
    }
}

/// Only an object, or `null`, takes a new member.
pub proof fn only_objects_take_members(compact: Seq<char>)
    ensures
        crate::outside::takes_members("{"@ + compact),
        crate::outside::takes_members("null"@),
        compact.len() > 0 && compact[0] != '{' && compact != "null"@
            ==> !crate::outside::takes_members(compact),
{
    crate::text::a_written_word_is_contained(Seq::empty(), "{"@, compact);
    reveal_strlit("{");
    if crate::text::begins_with(compact, "{"@) {
        assert(compact.subrange(0, 1)[0] == '{');
    }
}

/// A record is changed exactly if it is JSON, and it and its `meta`, if there is one, take members.
/// Otherwise it is said what is wrong.
pub proof fn a_record_is_edited_where_it_takes_members(
    record: Seq<char>,
    key: Seq<char>,
    source: Option<(Seq<char>, Seq<char>)>,
)
    ensures
        crate::outside::json_fault(record) matches Some(message) ==> edit_of(record, key, source)
            == EditView::NotJson(message),
        crate::outside::json_fault(record) is None ==> (edit_of(record, key, source)
            is Edited <==> {
            &&& crate::outside::json_member(record, ""@) matches Some(Some(whole))
                && crate::outside::takes_members(whole)
            &&& crate::outside::json_member(record, "/meta"@) matches Some(Some(meta))
                ==> crate::outside::takes_members(meta)
        }),
        crate::outside::json_fault(record) is None ==> !(edit_of(record, key, source) is NotJson),
        edit_of(record, key, source) matches EditView::Edited(text) ==> text
            == crate::outside::json_with_member(record, "meta"@, key, source),
{
    reveal_strlit("/");
    reveal_strlit("meta");
    reveal_strlit("/meta");
    assert("/"@ + "meta"@ =~= "/meta"@);
}

/// A group is given by the JSON text of its name, and no group by nothing.
pub proof fn a_group_is_given_by_its_name(name: Seq<char>)
    ensures
        group_source(Some(name)) == Some((crate::outside::json_of_string(name), ""@)),
        group_source(None) is None,
{
}

/// A change touches no file but that of the run, and of that nothing but its record; and where the
/// run was not changed, it touches none.
pub proof fn a_change_touches_one_record(
    before: Seq<RunFileView>,
    after: Seq<RunFileView>,
    run_id: Seq<char>,
    change: RunChange,
    edit: spec_fn(Seq<char>) -> EditView,
    k: int,
)
    requires
        is_change_by(before, after, run_id, change, edit),
        0 <= k < before.len(),
    ensures
        after.len() == before.len(),
        after[k].group == before[k].group,
        after[k].stem == before[k].stem,
        file_place(before, run_id) != Some(k) ==> after[k] == before[k],
        !(change is Changed) ==> after == before,
        change matches RunChange::Changed(i) ==> {
            &&& file_place(before, run_id) == Some(i as int)
            &&& before[i as int].record is Some
            &&& after[i as int].record is Some
            &&& edit(before[i as int].record->0) == EditView::Edited(after[i as int].record->0)
        },
{
    lemma_place_has_name(paths_of(before), run_id);
    lemma_place_has_name(names_of(before), run_id);
}

/// It is told what kept a run from being changed: that there is none, that its file could not be
/// read, or what is wrong with its record.
pub proof fn it_is_told_why_a_run_was_not_changed(
    before: Seq<RunFileView>,
    after: Seq<RunFileView>,
    run_id: Seq<char>,
    change: RunChange,
    edit: spec_fn(Seq<char>) -> EditView,
)
    requires
        is_change_by(before, after, run_id, change, edit),
    ensures
        change is Missing <==> file_place(before, run_id) is None,
        file_place(before, run_id) matches Some(i) ==> {
            &&& change is Unreadable <==> before[i].record is None
            &&& before[i].record matches Some(record) ==> {
                &&& change is Unfit <==> edit(record) is Unfit
                &&& change is Changed <==> edit(record) is Edited
                &&& edit(record) matches EditView::NotJson(message) ==> (change
                    matches RunChange::NotJson(m) && m@ == message)
            }
        },
{
}

/// An edited record that can be read holds what was set, takes further changes, and can be read
/// wherever the record printed readably and a text was set.
pub proof fn an_edited_record_holds_what_was_set(
    record: Seq<char>,
    edited: Seq<char>,
    place: Seq<char>,
    source: Option<(Seq<char>, Seq<char>)>,
    group: Option<Seq<char>>,
)
    ensures
        is_edited(record, edited, place, source) && crate::outside::json_fault(edited) is None
            ==> crate::outside::is_set_to(record, edited, place, source)
            && crate::outside::takes_inner_members(edited, "meta"@),
        is_edited(record, edited, place, source) && crate::outside::prints_readably(record)
            && crate::outside::is_textual(source) ==> crate::outside::json_fault(edited) is None,
        is_regrouped(record, edited, group) && crate::outside::prints_readably(record)
            ==> crate::outside::json_fault(edited) is None,
        is_regrouped(record, edited, group) && crate::outside::json_fault(edited) is None
            ==> crate::outside::json_string(edited, "/meta/experiment_group"@) == group && fields_of(
            edited,
        ) == fields_of(record) && crate::outside::takes_inner_members(edited, "meta"@)
            && crate::outside::stays_elsewhere(record, edited, "/meta/experiment_group"@),
{
}

/// Files, names and summaries are modelled one by one.
pub proof fn files_and_summaries_are_their_parts(
    files: Seq<RunFile>,
    stems: Seq<Option<String>>,
    list: Seq<RunSummary>,
    i: int,
)
    ensures
        file_views(files).len() == files.len(),
        0 <= i < files.len() ==> {
            &&& file_views(files)[i].group == crate::outside::optional_text(files[i].group)
            &&& file_views(files)[i].stem == crate::outside::optional_text(files[i].stem)
            &&& file_views(files)[i].record == crate::outside::optional_text(files[i].record)
        },
        stem_texts(stems).len() == stems.len(),
        0 <= i < stems.len() ==> stem_texts(stems)[i] == crate::outside::optional_text(stems[i]),
        summaries(list).len() == list.len(),
        0 <= i < list.len() ==> summaries(list)[i] == list[i]@,
{
}

/// A summary and the fields of a record are modelled by all that they hold.
pub proof fn a_summary_is_all_that_it_holds(summary: RunSummary, fields: RunFields)
    ensures
        summary@.place == summary.place,
        summary@.experiment_group == crate::outside::optional_text(summary.experiment_group),
        summary@.run_id == summary.run_id@,
        summary@.title == crate::outside::optional_text(summary.title),
        summary@.notes == crate::outside::optional_text(summary.notes),
        summary@.timestamp == summary.timestamp@,
        summary@.tags == crate::text::texts(summary.tags@),
        summary@.description == summary.description@,
        summary@.document_name == summary.document_name@,
        summary@.llm_calls == summary.llm_calls,
        summary@.tokens_input == summary.tokens_input,
        summary@.tokens_output == summary.tokens_output,
        summary@.total_findings == summary.total_findings,
        summary@.high_findings == summary.high_findings,
        summary@.coordinator_enabled == summary.coordinator_enabled,
        summary@.llm_model == summary.llm_model@,
        summary@.embed_engine == summary.embed_engine@,
        fields@.run_id == crate::outside::optional_text(fields.run_id),
        fields@.title == crate::outside::optional_text(fields.title),
        fields@.notes == crate::outside::optional_text(fields.notes),
        fields@.timestamp == crate::outside::optional_text(fields.timestamp),
        fields@.tags == crate::text::texts(fields.tags@),
        fields@.description == crate::outside::optional_text(fields.description),
        fields@.document_name == crate::outside::optional_text(fields.document_name),
        fields@.llm_calls == fields.llm_calls,
        fields@.tokens_input == fields.tokens_input,
        fields@.tokens_output == fields.tokens_output,
        fields@.total_findings == fields.total_findings,
        fields@.high_findings == fields.high_findings,
        fields@.coordinator_enabled == fields.coordinator_enabled,
        fields@.llm_model == crate::outside::optional_text(fields.llm_model),
        fields@.embed_engine == crate::outside::optional_text(fields.embed_engine),
{
}

/// What is shown of given fields: the texts that are there, and a question mark, or nothing, for
/// those that are not; the numbers that are there, and 0 for those that are not.
pub proof fn what_is_missing_is_shown_as_such(
    fields: FieldsView,
    group: Option<Seq<char>>,
    place: usize,
)
    ensures
        ({
            let s = summary_with(fields, group, place);
            &&& s.place == place && s.experiment_group == group
            &&& s.title == fields.title && s.notes == fields.notes && s.tags == fields.tags
            &&& s.run_id == (if fields.run_id is Some {
                fields.run_id->0
            } else {
                "?"@
            })
            &&& s.timestamp == (if fields.timestamp is Some {
                fields.timestamp->0
            } else {
                "?"@
            })
            &&& s.document_name == (if fields.document_name is Some {
                fields.document_name->0
            } else {
                "?"@
            })
            &&& s.llm_model == (if fields.llm_model is Some {
                fields.llm_model->0
            } else {
                "?"@
            })
            &&& s.embed_engine == (if fields.embed_engine is Some {
                fields.embed_engine->0
            } else {
                "?"@
            })
            &&& s.description == (if fields.description is Some {
                fields.description->0
            } else {
                Seq::empty()
            })
            &&& s.llm_calls == (if fields.llm_calls is Some {
                fields.llm_calls->0
            } else {
                0
            })
            &&& s.tokens_input == (if fields.tokens_input is Some {
                fields.tokens_input->0
            } else {
                0
            })
            &&& s.tokens_output == (if fields.tokens_output is Some {
                fields.tokens_output->0
            } else {
                0
            })
            &&& s.total_findings == (if fields.total_findings is Some {
                fields.total_findings->0
            } else {
                0
            })
            &&& s.high_findings == (if fields.high_findings is Some {
                fields.high_findings->0
            } else {
                0
            })
            &&& s.coordinator_enabled == (fields.coordinator_enabled is Some
                && fields.coordinator_enabled->0)
        }),
{
}

} // verus!
