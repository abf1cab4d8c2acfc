//! What the service decides: reviews, talks, lookups, uploads, records and sections.

use ai_bid::api::{
    model_name, Settings,
    bad_request, count_blocks, disk_stem, document_info, document_missing, id_can_be_cut,
    needs_conversion, not_found, review_event_capacity, server_error, server_error_fmt, total_size,
    Chunk, DocumentState,
};
use ai_bid::chat::{
    chat_tools, restore_chat_response, review_tools, to_messages, BlockRef, ChatMessage,
    ChatMessageDto, ChatResponse, ToolKind,
};
use ai_bid::document::{build_parsed_document, collect_chapter_titles};
use ai_bid::lookup::{
    show_hit,
    find_blocks, hits_wanted, requested_ids, snippet_of, BlockQuery, SearchRequest,
};
use ai_bid::registry::ToolRegistry;
use ai_bid::review::{
    accepted, conflict, count_high, count_with_blocks, failure_message, find_chunk,
    finish_findings, known_result, locate, restore_finding, review_outcome, select_chunks,
    stored_result, ActiveReviews, ReviewEnd, ReviewRequest, ReviewResponse, ReviewStart,
    RiskFinding,
};
use ai_bid::runs::{
    fill_summary, find_file, find_run, group_directory, inner_group, keep_strings, record_text,
    renote_run, requested_group, retitle_run, set_group, set_notes, set_tags, set_title,
    sort_names, sort_newest_first, summarize, MetaEdit, RunChange, RunFields, RunFile, RunSummary,
};
use ai_bid::sections::{
    add_orphan_sections, collect_all_block_ids, RawBlock, RawPage, Section,
};
use ai_bid::stream::{
    error_frame, frame_of_chat, frame_of_message, next_step, split_message, unwrap_message,
    BusEvent, ChatEvent, StreamStep,
};
use ai_bid::upload::{collect_upload, UploadField};

fn owned(list: &[&str]) -> Vec<String> {
    list.iter().map(|s| s.to_string()).collect()
}

fn some(s: &str) -> Option<String> {
    Some(s.to_string())
}

// ── Errors and names ──

#[test]
fn errors_have_their_status() {
    let (status, e) = bad_request("x");
    assert_eq!((status, e.error.as_str(), e.detail.as_str()), (400, "BAD_REQUEST", "x"));
    let (status, e) = not_found("x");
    assert_eq!((status, e.error.as_str(), e.detail.as_str()), (404, "NOT_FOUND", "x"));
    let (status, e) = server_error("写入失败", "disk");
    assert_eq!(
        (status, e.error.as_str(), e.detail.as_str()),
        (500, "写入失败", "写入失败: disk")
    );
    let (status, e) = server_error_fmt("x");
    assert_eq!((status, e.error.as_str(), e.detail.as_str()), (500, "x", "x"));
    let (status, e) = document_missing("d");
    assert_eq!((status, e.detail.as_str()), (404, "文档不存在: d"));
}

#[test]
fn the_event_capacity_is_bounded() {
    assert_eq!(review_event_capacity(None), 4096);
    assert_eq!(review_event_capacity(Some("1000")), 1000);
    assert_eq!(review_event_capacity(Some("1")), 256);
    assert_eq!(review_event_capacity(Some("100000")), 32768);
    assert_eq!(review_event_capacity(Some("many")), 4096);
    assert_eq!(review_event_capacity(Some("-1")), 4096);
    assert_eq!(review_event_capacity(Some("99999999999999999999999")), 4096);
}

#[test]
fn file_names_carry_the_beginning_of_the_id() {
    let id = "0123456789ab";
    assert_eq!(disk_stem(Some("招标文件"), "document", id), "招标文件_01234567");
    assert_eq!(disk_stem(None, "document", id), "document_01234567");
    assert_eq!(disk_stem(None, "doc", "abc"), "doc_abc");
    assert!(id_can_be_cut(id) && id_can_be_cut("abc") && id_can_be_cut(""));
    assert!(!id_can_be_cut("标书标书"));
    assert!(needs_conversion("docx") && needs_conversion("doc"));
    assert!(!needs_conversion("pdf") && !needs_conversion("DOCX"));
}

// ── Sections ──

fn section(title: &str, ids: &[&str], children: Vec<Section>) -> Section {
    Section {
        level: 1,
        title: title.to_string(),
        pattern: "x".to_string(),
        page_start: 0,
        page_end: 0,
        block_ids: owned(ids),
        body_text: String::new(),
        children,
        body_page_start: 0,
        body_page_end: 0,
    }
}

fn page(index: usize, blocks: &[(&str, &str)]) -> RawPage {
    RawPage {
        page_index: index,
        blocks: blocks
            .iter()
            .map(|(id, text)| RawBlock { id: id.to_string(), text: text.to_string() })
            .collect(),
    }
}

#[test]
fn block_ids_are_collected_from_the_outside_in() {
    let s = section("a", &["1", "2"], vec![section("b", &["3"], vec![]), section("c", &["4"], vec![])]);
    assert_eq!(collect_all_block_ids(&s), vec!["1", "2", "3", "4"]);
}

#[test]
fn blocks_without_a_section_get_sections_of_their_own() {
    let sections = vec![section("a", &["b1"], vec![section("b", &["b3"], vec![])])];
    let pages = vec![
        page(0, &[("b1", "一"), ("b2", "二")]),
        page(1, &[("b3", "三"), ("b4", "四")]),
        page(4, &[("b6", "六")]),
        page(3, &[("b5", "五")]),
        page(7, &[("b7", "七"), ("b8", "八")]),
    ];
    let all = add_orphan_sections(sections, &pages);
    assert_eq!(all.len(), 4);
    assert_eq!(all[0].title, "a");
    let shown: Vec<(&str, usize, usize, Vec<&str>, &str)> = all[1..]
        .iter()
        .map(|s| {
            (
                s.title.as_str(),
                s.page_start,
                s.page_end,
                s.block_ids.iter().map(|i| i.as_str()).collect(),
                s.body_text.as_str(),
            )
        })
        .collect();
    assert_eq!(
        shown,
        vec![
            ("未归类内容 (第1-2页)", 0, 1, vec!["b2", "b4"], "二\n四"),
            ("未归类内容 (第4-5页)", 3, 4, vec!["b5", "b6"], "五\n六"),
            ("未归类内容 (第8-8页)", 7, 7, vec!["b7", "b8"], "七\n八"),
        ]
    );
    assert!(all[1..].iter().all(|s| s.level == 0 && s.pattern == "orphan" && s.children.is_empty()));
    assert_eq!((all[2].body_page_start, all[2].body_page_end), (3, 4));
}

#[test]
fn an_id_that_comes_twice_is_on_its_last_page() {
    let pages = vec![page(0, &[("x", "一")]), page(5, &[("x", "二")])];
    let all = add_orphan_sections(Vec::new(), &pages);
    assert_eq!(all.len(), 1);
    assert_eq!((all[0].page_start, all[0].body_text.as_str()), (5, "一\n二"));
}

#[test]
fn without_such_blocks_nothing_is_added() {
    let pages = vec![page(0, &[("b1", "一")])];
    let all = add_orphan_sections(vec![section("a", &["b1"], vec![])], &pages);
    assert_eq!(all.len(), 1);
    assert!(add_orphan_sections(Vec::new(), &Vec::new()).is_empty());
}

// ── Documents ──

fn chunk(id: &str, page_start: usize, text: &str) -> Chunk {
    Chunk {
        chunk_id: id.to_string(),
        page_start,
        section_path: owned(&["第一章", "一"]),
        text: text.to_string(),
        source_block_ids: owned(&["b1", "b2"]),
    }
}

#[test]
fn a_document_is_made_of_sections_and_pieces() {
    let sections = vec![section("第一章", &[], vec![section("", &[], vec![section("一", &[], vec![])])])];
    assert_eq!(collect_chapter_titles(&sections), vec!["第一章", "一"]);
    let chunks = vec![chunk("c1", 3, "中标金额5元"), chunk("c2", 4, "乙")];
    let doc = build_parsed_document("a.pdf", &sections, &chunks);
    assert_eq!(doc.file_name, "a.pdf");
    let titles: Vec<&str> = doc.chapters.iter().map(|c| c.title.as_str()).collect();
    assert_eq!(titles, vec!["第一章", "一"]);
    let clauses: Vec<(&str, u32, &str)> = doc
        .clauses
        .iter()
        .map(|c| (c.id.as_str(), c.page, c.text.as_str()))
        .collect();
    assert_eq!(clauses, vec![("c1", 3, "中标金额5元"), ("c2", 4, "乙")]);
    assert_eq!(doc.metrics[0].name, "中标金额");
}

#[test]
fn the_service_tells_of_a_document() {
    let state = DocumentState {
        id: "d".to_string(),
        filename: "a.pdf".to_string(),
        stem: "d".to_string(),
        pages: vec![page(0, &[("b1", "一"), ("b2", "二")]), page(1, &[("b3", "三")])],
        sections: Vec::new(),
        chunks: vec![chunk("c1", 0, "标书"), chunk("c2", 1, "ab")],
        review_chunks: Vec::new(),
        vector_count: 2,
        desensitization_mode: "low".to_string(),
        desensitized_items: 7,
    };
    let info = document_info(&state);
    assert_eq!((info.document_id.as_str(), info.filename.as_str()), ("d", "a.pdf"));
    assert_eq!((info.total_pages, info.total_chunks, info.vector_count), (2, 2, 2));
    assert_eq!((info.desensitization_mode.as_str(), info.desensitized_items), ("low", 7));
    assert_eq!(count_blocks(&state.pages), 3);
    assert_eq!(total_size(&state.chunks), 8);
}

// ── Uploads ──

fn field(name: &str, file: Option<&str>, data: Option<&[u8]>, mode: Option<Option<u8>>) -> UploadField<u8> {
    UploadField {
        name: name.to_string(),
        file_name: file.map(|f| f.to_string()),
        data: data.map(|d| d.to_vec()),
        mode,
    }
}

#[test]
fn the_last_file_of_a_form_counts() {
    let fields = vec![
        field("f", Some("a.pdf"), Some(b"1"), None),
        field("desensitize_mode", None, None, Some(Some(9))),
        field("other", None, None, Some(None)),
        field("f", Some("b.pdf"), None, None),
    ];
    let upload = collect_upload(fields, 0).ok().expect("a file");
    assert_eq!(upload.filename, "b.pdf");
    assert_eq!(upload.data, b"1".to_vec());
    assert_eq!(upload.mode, 9);
}

#[test]
fn a_form_without_a_file_is_refused() {
    let (status, e) = collect_upload(vec![field("f", Some("a.pdf"), Some(b""), None)], 0)
        .err()
        .expect("refused");
    assert_eq!((status, e.detail.as_str()), (400, "上传文件为空"));
    assert!(collect_upload(Vec::<UploadField<u8>>::new(), 0).is_err());
}

#[test]
fn an_unknown_mode_is_refused() {
    let fields = vec![
        field("f", Some("a.pdf"), Some(b"1"), None),
        field("desensitize_mode", None, None, Some(None)),
    ];
    let (status, e) = collect_upload(fields, 0).err().expect("refused");
    assert_eq!((status, e.detail.as_str()), (400, "desensitize_mode 仅支持 off/low"));
}

// ── Reviews ──

fn request(ids: &[&str], max: Option<usize>) -> ReviewRequest {
    ReviewRequest { chunk_ids: owned(ids), max_clauses: max, enabled_agents: None }
}

fn three() -> Vec<Chunk> {
    vec![chunk("c1", 0, "一"), chunk("c2", 1, "二"), chunk("c3", 2, "三")]
}

#[test]
fn a_request_selects_pieces() {
    let chunks = three();
    let of = |ids: &[&str], max| select_chunks(&chunks, &request(ids, max)).ok();
    assert_eq!(of(&[], None), Some(vec![0, 1, 2]));
    assert_eq!(of(&["c3", "c1"], None), Some(vec![0, 2]));
    assert_eq!(of(&["c3", "x", "c1"], Some(1)), Some(vec![0]));
    assert_eq!(of(&[], Some(9)), Some(vec![0, 1, 2]));
    let (status, e) = select_chunks(&chunks, &request(&["x"], Some(0))).err().expect("refused");
    assert_eq!((status, e.detail.as_str()), (400, "chunk_ids 未匹配到任何文档条款"));
    let (status, e) = select_chunks(&chunks, &request(&[], Some(0))).err().expect("refused");
    assert_eq!((status, e.detail.as_str()), (400, "max_clauses 必须大于 0"));
    assert_eq!(select_chunks(&Vec::new(), &request(&[], None)).ok(), Some(vec![]));
}

#[test]
fn a_document_is_reviewed_once_at_a_time() {
    let chunks = three();
    let mut active = ActiveReviews::new();
    assert!(matches!(
        active.begin("d", &chunks, &request(&["c2"], None)),
        ReviewStart::Begun(places) if places == vec![1]
    ));
    assert!(active.is_running("d"));
    assert!(matches!(
        active.begin("d", &chunks, &request(&[], Some(0))),
        ReviewStart::Conflict
    ));
    assert!(matches!(active.begin("e", &chunks, &request(&[], None)), ReviewStart::Begun(_)));
    active.end("d");
    assert!(!active.is_running("d") && active.is_running("e"));
    assert!(matches!(active.begin("d", &chunks, &request(&[], None)), ReviewStart::Begun(_)));
}

#[test]
fn a_refused_review_is_not_running() {
    let chunks = three();
    let mut active = ActiveReviews::new();
    assert!(matches!(
        active.begin("d", &chunks, &request(&["x"], None)),
        ReviewStart::Refused((400, _))
    ));
    assert!(!active.is_running("d"));
    assert!(matches!(active.begin("d", &chunks, &request(&[], None)), ReviewStart::Begun(_)));
}

#[test]
fn requests_are_answered() {
    let (status, a) = accepted("d");
    assert_eq!((status, a.status.as_str(), a.document_id.as_str()), (202, "accepted", "d"));
    assert_eq!(a.message, "审核任务已提交，通过 SSE 获取实时进度");
    let (status, a) = conflict("d");
    assert_eq!((status, a.status.as_str(), a.document_id.as_str()), (409, "conflict", "d"));
    assert_eq!(a.message, "该文档已有进行中的审核任务");
    assert_eq!(failure_message("x"), "审核引擎执行失败: x");
}

fn finding(clauses: &[&str], high: bool) -> RiskFinding {
    RiskFinding {
        clause_ids: owned(clauses),
        high,
        source_quote: "q".to_string(),
        reason: "r".to_string(),
        suggestion: "s".to_string(),
        critical_reason: "c".to_string(),
        legal_basis: owned(&["l", "m"]),
        page_number: None,
        section_path: None,
        context: None,
        block_ids: Vec::new(),
    }
}

#[test]
fn a_finding_gets_the_place_of_its_piece() {
    let mut chunks = three();
    chunks.push(chunk("c2", 8, &"长".repeat(600)));
    let located = locate(finding(&["c2", "c1"], true), &chunks);
    assert_eq!(located.page_number, Some(9));
    assert_eq!(located.section_path, Some(owned(&["第一章", "一"])));
    assert_eq!(located.context, Some("长".repeat(500)));
    assert_eq!(located.block_ids, vec!["b1", "b2"]);
    assert_eq!(located.reason, "r");
    assert_eq!(find_chunk(&chunks, "c2").map(|c| c.page_start), Some(8));
    for clauses in [&["x"][..], &[][..]] {
        let stays = locate(finding(clauses, false), &chunks);
        assert_eq!(stays.page_number, None);
        assert!(stays.block_ids.is_empty());
    }
    let list = vec![located, finding(&[], true), finding(&[], false)];
    assert_eq!(count_high(&list), 2);
    assert_eq!(count_with_blocks(&list), 1);
}

#[test]
fn the_texts_of_a_finding_are_restored() {
    let restored = restore_finding(finding(&["c1"], true), &|s: &str| format!("<{s}>"));
    assert_eq!(restored.source_quote, "<q>");
    assert_eq!(restored.reason, "<r>");
    assert_eq!(restored.suggestion, "<s>");
    assert_eq!(restored.critical_reason, "<c>");
    assert_eq!(restored.legal_basis, vec!["<l>", "<m>"]);
    assert_eq!(restored.clause_ids, vec!["c1"]);
    assert!(restored.high);
}

#[test]
fn findings_are_finished_in_their_order() {
    let chunks = three();
    let list = vec![finding(&["c3"], true), finding(&["x"], false)];
    let finished = finish_findings(list, &chunks, &|s: &str| format!("<{s}>"));
    assert_eq!(finished.len(), 2);
    assert_eq!((finished[0].page_number, finished[0].reason.as_str()), (Some(3), "<r>"));
    assert_eq!(finished[0].context.as_deref(), Some("三"));
    assert_eq!((finished[1].page_number, finished[1].reason.as_str()), (None, "<r>"));
    assert_eq!(finished[1].clause_ids, vec!["x"]);
}

#[test]
fn a_review_ends_in_a_result_or_in_a_failure() {
    let restore = |s: &str| format!("<{s}>");
    let list = vec![finding(&["c3"], true), finding(&["x"], false), finding(&[], true)];
    let outcome = review_outcome("d", Ok(list), &three(), &restore);
    assert!(outcome.error.is_none());
    let findings = outcome.findings.expect("findings");
    assert_eq!(findings.len(), 3);
    assert_eq!((findings[0].page_number, findings[0].reason.as_str()), (Some(3), "<r>"));
    match outcome.end {
        ReviewEnd::Done { total_findings, high_risk, session_id } => {
            assert_eq!((total_findings, high_risk, session_id.as_str()), (3, 2, "d"));
        }
        other => panic!("{other:?}"),
    }
    let outcome = review_outcome("d", Err("x".to_string()), &three(), &restore);
    assert!(outcome.findings.is_none());
    assert_eq!(outcome.error.as_deref(), Some("审核引擎执行失败: x"));
    match outcome.end {
        ReviewEnd::Error { message, session_id } => {
            assert_eq!((message.as_str(), session_id.as_str()), ("审核引擎执行失败: x", "d"));
        }
        other => panic!("{other:?}"),
    }
}

fn done() -> Option<ReviewResponse<u8, u8, u8>> {
    Some(ReviewResponse {
        document_id: "d".to_string(),
        findings: vec![1],
        routing_summary: 2,
        graph_snapshot: None,
    })
}

#[test]
fn a_result_comes_before_a_failure_and_that_before_progress() {
    let a = known_result(done(), some("e"), true).expect("known");
    assert_eq!(a.status, "completed");
    assert!(a.error.is_none());
    assert_eq!(a.result.expect("a result").findings, vec![1]);
    let a = known_result::<u8, u8, u8>(None, some("e"), true).expect("known");
    assert_eq!((a.status.as_str(), a.error.as_deref()), ("failed", Some("e")));
    let a = known_result::<u8, u8, u8>(None, None, true).expect("known");
    assert_eq!((a.status.as_str(), a.error.is_none()), ("pending", true));
    assert!(known_result::<u8, u8, u8>(None, None, false).is_none());
}

#[test]
fn a_stored_result_is_better_than_none() {
    let stored = known_result(done(), None, false);
    assert_eq!(stored_result("d", stored).ok().expect("stored").status, "completed");
    let (status, e) = stored_result::<u8, u8, u8>("d", None).err().expect("missing");
    assert_eq!((status, e.detail.as_str()), (404, "审查结果不存在: d"));
}

// ── Streams ──

fn shown(frame: ai_bid::stream::Frame) -> (String, String) {
    (frame.event, frame.data)
}

fn pair(a: &str, b: &str) -> (String, String) {
    (a.to_string(), b.to_string())
}

#[test]
fn messages_with_a_kind_come_apart() {
    assert_eq!(shown(split_message("event:phase\n{}\n{}")), pair("phase", "{}\n{}"));
    assert_eq!(shown(split_message("event:phase")), pair("message", "phase"));
    assert_eq!(shown(split_message("{}")), pair("message", "{}"));
    assert_eq!(
        shown(frame_of_message("event:phase\n{\"event\":\"x\"}")),
        pair("phase", "{\"event\":\"x\"}")
    );
}

#[test]
fn tagged_json_is_unwrapped() {
    let of = |m: &str| shown(frame_of_message(m));
    assert_eq!(
        of("{\"event\":\"phase\",\"data\":{\"b\":1, \"a\":2}}").0,
        "phase"
    );
    assert_eq!(of("{\"event\":\"phase\",\"data\":[1, 2]}"), pair("phase", "[1,2]"));
    assert_eq!(of("{\"event\":\"done\"}"), pair("done", "{\"event\":\"done\"}"));
    assert_eq!(of("{\"event\":7,\"data\":\"x\"}"), pair("message", "\"x\""));
    assert_eq!(of("[1]"), pair("message", "[1]"));
    assert_eq!(of("no json"), pair("message", "no json"));
    assert_eq!(of("event:message\n{\"event\":\"e\",\"data\":null}"), pair("e", "null"));
}

#[test]
fn a_message_is_unwrapped_by_its_parts() {
    let of = |p| shown(unwrap_message("d".to_string(), p));
    assert_eq!(of(None), pair("message", "d"));
    assert_eq!(of(Some((None, None))), pair("message", "d"));
    assert_eq!(of(Some((some("k"), some("i")))), pair("k", "i"));
}

#[test]
fn a_stream_goes_on_until_the_bus_closes() {
    assert!(matches!(
        next_step(BusEvent::Message("x".to_string())),
        StreamStep::Send(f) if f.data == "x"
    ));
    match next_step(BusEvent::Lagged(3)) {
        StreamStep::Send(f) => {
            assert_eq!(f.event, "stream_lagged");
            let data: serde_json::Value = serde_json::from_str(&f.data).unwrap();
            assert_eq!(data["dropped"], 3);
            assert_eq!(data["message"], "SSE consumer lagged; progress events were dropped");
            assert_eq!(data.to_string(), f.data);
        }
        other => panic!("{other:?}"),
    }
    assert!(matches!(next_step(BusEvent::Closed), StreamStep::Stop));
}

#[test]
fn chat_events_become_frames() {
    let of = |e| {
        let (frame, last) = frame_of_chat(e);
        (frame.event, frame.data, last)
    };
    let line = |a: &str, b: &str, last| (a.to_string(), b.to_string(), last);
    assert_eq!(
        of(ChatEvent::Thinking("m".to_string())),
        line("thinking", "{\"message\":\"m\"}", false)
    );
    assert_eq!(
        of(ChatEvent::ToolCall { name: "n".to_string(), args: "a".to_string() }),
        line("tool_call", "{\"name\":\"n\",\"args\":\"a\"}", false)
    );
    assert_eq!(of(ChatEvent::Answer("{}".to_string())), line("answer", "{}", false));
    assert_eq!(of(ChatEvent::Done("{}".to_string())), line("done", "{}", true));
    assert_eq!(
        of(ChatEvent::Error("m".to_string())),
        line("error", "{\"message\":\"m\"}", true)
    );
    assert_eq!(
        shown(error_frame("文档不存在")),
        pair("error", "{\"message\":\"文档不存在\"}")
    );
}

// ── Talks ──

fn dto(role: &str, content: Option<&str>) -> ChatMessageDto {
    ChatMessageDto {
        role: role.to_string(),
        content: content.map(|c| c.to_string()),
        tool_call_id: None,
    }
}

#[test]
fn a_history_is_taken_over() {
    let messages = to_messages(vec![
        dto("system", Some("a")),
        dto("assistant", None),
        dto("assistant", Some("b")),
        dto("user", Some("c")),
        dto("tool", None),
    ]);
    assert_eq!(messages.len(), 5);
    assert!(matches!(&messages[0], ChatMessage::System(s) if s == "a"));
    assert!(matches!(&messages[1], ChatMessage::Assistant(None)));
    assert!(matches!(&messages[2], ChatMessage::Assistant(Some(s)) if s == "b"));
    assert!(matches!(&messages[3], ChatMessage::User(s) if s == "c"));
    assert!(matches!(&messages[4], ChatMessage::User(s) if s.is_empty()));
}

#[test]
fn agents_get_the_tools_that_there_are() {
    assert_eq!(
        chat_tools(true, true),
        vec![ToolKind::SearchDocument, ToolKind::ReadSection, ToolKind::SearchKnowledge, ToolKind::AnswerUser]
    );
    assert_eq!(chat_tools(false, false), vec![ToolKind::ReadSection, ToolKind::AnswerUser]);
    assert_eq!(
        review_tools(true, "dashscope", true),
        vec![ToolKind::SearchDocument, ToolKind::ReadSection, ToolKind::SearchKnowledge, ToolKind::OutputFinding]
    );
    assert_eq!(review_tools(false, "searxng", true), vec![ToolKind::ReadSection, ToolKind::OutputFinding]);
    assert_eq!(review_tools(false, "dashscope", false), vec![ToolKind::ReadSection, ToolKind::OutputFinding]);
}

#[test]
fn the_texts_of_an_answer_are_restored() {
    let response = ChatResponse {
        answer: "a".to_string(),
        reasoning: owned(&["b", "c"]),
        references: vec![BlockRef { quote: "d".to_string(), snippet: "e".to_string() }],
        suggested_actions: owned(&["f"]),
    };
    let restored = restore_chat_response(response, &|s: &str| s.to_uppercase());
    assert_eq!(restored.answer, "A");
    assert_eq!(restored.reasoning, vec!["B", "C"]);
    assert_eq!(restored.references[0].quote, "D");
    assert_eq!(restored.references[0].snippet, "E");
    assert_eq!(restored.suggested_actions, vec!["F"]);
}

// ── Lookups ──

#[test]
fn blocks_are_found_by_their_ids() {
    let query = BlockQuery { ids: " b3 ,b1,,x".to_string() };
    let ids = requested_ids(&query);
    assert_eq!(ids, vec!["b3", "b1", "", "x"]);
    let pages = vec![page(0, &[("b1", ""), ("b2", "")]), page(1, &[("b3", ""), ("b1", "")])];
    assert_eq!(find_blocks(&pages, &ids), vec![(0, 0), (1, 0), (1, 1)]);
}

#[test]
fn a_search_has_its_measures() {
    let mut req = SearchRequest { queries: Vec::new(), top_k: None };
    assert_eq!(hits_wanted(&req), 5);
    req.top_k = Some(0);
    assert_eq!(hits_wanted(&req), 0);
    assert_eq!(snippet_of(&"标".repeat(250)), "标".repeat(200));
}

// ── Records ──

const RECORD: &str = r#"{
  "meta": {
    "run_id": "r1", "title": "t", "timestamp": "2025-06-01T00:00:00+08:00",
    "tags": ["http", 7, "x"], "document": {"name": "d"},
    "config": {"coordinator_enabled": true, "llm_model": "qwen-plus"}
  },
  "llm_efficiency": {"totals": {"llm_calls": 3, "tokens_input": 10, "tokens_output": 1.5}},
  "review_quality": {"findings": {"after_dedup": 4, "by_severity": {"high": 2}}}
}"#;

#[test]
fn a_record_is_summed_up() {
    let s = summarize(RECORD, some("g"), 5).expect("JSON");
    assert_eq!(s.place, 5);
    assert_eq!(s.experiment_group.as_deref(), Some("g"));
    assert_eq!(s.run_id, "r1");
    assert_eq!(s.title.as_deref(), Some("t"));
    assert_eq!(s.notes, None);
    assert_eq!(s.timestamp, "2025-06-01T00:00:00+08:00");
    assert_eq!(s.tags, vec!["http", "x"]);
    assert_eq!(s.description, "");
    assert_eq!(s.document_name, "d");
    assert_eq!((s.llm_calls, s.tokens_input, s.tokens_output), (3, 10, 0));
    assert_eq!((s.total_findings, s.high_findings), (4, 2));
    assert!(s.coordinator_enabled);
    assert_eq!((s.llm_model.as_str(), s.embed_engine.as_str()), ("qwen-plus", "?"));
}

#[test]
fn a_record_may_hold_nothing() {
    for record in ["{}", "[]", "null", "{\"meta\": 3}"] {
        let s = summarize(record, None, 0).expect("JSON");
        assert_eq!((s.run_id.as_str(), s.timestamp.as_str()), ("?", "?"));
        assert!(s.tags.is_empty() && !s.coordinator_enabled);
    }
    assert!(summarize("{", None, 0).is_none());
    assert!(summarize("", None, 0).is_none());
}

fn edited(edit: MetaEdit) -> RunSummary {
    match edit {
        MetaEdit::Edited(text) => summarize(&text, None, 0).expect("JSON"),
        other => panic!("{other:?}"),
    }
}

#[test]
fn a_record_can_be_changed() {
    let s = edited(set_title(RECORD, "{\"title\": \"新标题\"}"));
    assert_eq!(s.title.as_deref(), Some("新标题"));
    assert_eq!((s.run_id.as_str(), s.llm_calls), ("r1", 3));
    assert_eq!(edited(set_title(RECORD, "{}")).title, None);
    assert_eq!(edited(set_title(RECORD, "{\"title\": 7}")).title, None);
    let s = edited(set_notes(RECORD, "{\"notes\": \"a\\nb\"}"));
    assert_eq!(s.notes.as_deref(), Some("a\nb"));
    assert_eq!(s.title.as_deref(), Some("t"));
    let s = edited(set_tags(RECORD, owned(&["x\"y", ""])));
    assert_eq!(s.tags, vec!["x\"y", ""]);
}

fn all_of(s: &RunSummary) -> String {
    format!("{s:?}")
}

#[test]
fn a_change_leaves_the_rest_of_a_record_alone() {
    let mut wanted = summarize(RECORD, None, 0).unwrap();
    wanted.title = some("新标题");
    assert_eq!(all_of(&edited(set_title(RECORD, "{\"title\": \"新标题\"}"))), all_of(&wanted));
    wanted.title = None;
    assert_eq!(all_of(&edited(set_title(RECORD, "{\"title\": null}"))), all_of(&wanted));

    let mut wanted = summarize(RECORD, None, 0).unwrap();
    wanted.notes = some("n");
    assert_eq!(all_of(&edited(set_notes(RECORD, "{\"notes\": \"n\"}"))), all_of(&wanted));

    let mut wanted = summarize(RECORD, None, 0).unwrap();
    wanted.tags = owned(&["x", "y"]);
    assert_eq!(all_of(&edited(set_tags(RECORD, owned(&["x", "y"])))), all_of(&wanted));

    let wanted = summarize(RECORD, None, 0).unwrap();
    assert_eq!(all_of(&edited(set_group(RECORD, Some("g")))), all_of(&wanted));
    assert_eq!(all_of(&edited(set_group(RECORD, None))), all_of(&wanted));
}

const RAW: &str = "$serde_json::private::RawValue";

#[test]
fn a_title_that_is_an_object_is_kept_as_it_is() {
    let body = format!("{{\"title\": {{\"a\": 0.1, \"{RAW}\": \"x\"}}}}");
    match set_title("{\"meta\": {}}", &body) {
        MetaEdit::Edited(text) => {
            assert!(text.contains("\"a\": 0.1"));
            assert!(text.contains(RAW));
        }
        other => panic!("{other:?}"),
    }
}

#[test]
fn strings_are_read_from_among_other_tags() {
    let record = format!("{{\"meta\": {{\"tags\": [\"x\", {{\"a\": 1, \"{RAW}\": \"y\"}}, 2, \"z\"]}}}}");
    assert_eq!(summarize(&record, None, 0).unwrap().tags, vec!["x", "z"]);
}

fn file(group: Option<&str>, stem: Option<&str>, record: Option<&str>) -> RunFile {
    RunFile {
        group: group.map(str::to_string),
        stem: stem.map(str::to_string),
        record: record.map(str::to_string),
    }
}

#[test]
fn a_moved_run_takes_a_title() {
    let MetaEdit::Edited(moved) = set_group(RECORD, Some("g/h")) else {
        panic!("the record cannot be moved");
    };
    let mut files = vec![
        file(None, Some("r0"), Some(RECORD)),
        file(None, None, None),
        file(Some("g/h"), Some("r1"), Some(&moved)),
        file(Some("z"), Some("r1"), Some("{}")),
    ];
    let change = retitle_run(&mut files, "r1", "{\"title\": \"T\"}");
    assert!(matches!(change, RunChange::Changed(2)));
    assert_eq!(files[2].group.as_deref(), Some("g/h"));
    assert_eq!(files[2].stem.as_deref(), Some("r1"));
    let text = files[2].record.as_deref().unwrap();
    let mut wanted = summarize(RECORD, None, 0).unwrap();
    wanted.title = some("T");
    assert_eq!(all_of(&summarize(text, None, 0).unwrap()), all_of(&wanted));
    assert!(text.contains("\"experiment_group\": \"g/h\""));
    assert_eq!(files[0].record.as_deref(), Some(RECORD));
    assert_eq!(files[3].record.as_deref(), Some("{}"));
}

#[test]
fn a_run_is_found_by_its_path_before_its_name() {
    let mut files = vec![
        file(Some("g"), Some("x"), Some("{}")),
        file(None, Some("x"), Some("{}")),
        file(Some("g"), Some("y"), Some("{}")),
        file(Some("h"), Some("y"), Some("{}")),
    ];
    assert_eq!(find_file(&files, "x"), Some(1));
    assert_eq!(find_file(&files, "g/x"), Some(0));
    assert_eq!(find_file(&files, "y"), Some(2));
    assert_eq!(find_file(&files, "h/y"), Some(3));
    assert_eq!(find_file(&files, "h/x"), None);
    let change = renote_run(&mut files, "x", "{\"notes\": \"n\"}");
    assert!(matches!(change, RunChange::Changed(1)));
    let shown = summarize(files[1].record.as_deref().unwrap(), None, 0).unwrap();
    assert_eq!(shown.notes.as_deref(), Some("n"));
    for i in [0, 2, 3] {
        assert_eq!(files[i].record.as_deref(), Some("{}"));
    }
    assert!(matches!(renote_run(&mut files, "z", "{}"), RunChange::Missing));
}

#[test]
fn a_record_is_sent_as_the_json_it_holds() {
    assert_eq!(record_text(" { \"a\" : [1, \"x\"] } ").unwrap(), "{\"a\":[1,\"x\"]}");
    let reason = serde_json::from_str::<serde_json::Value>("{").unwrap_err().to_string();
    assert_eq!(record_text("{").unwrap_err(), format!("JSON 解析失败: {reason}"));
}

#[test]
fn a_run_that_cannot_be_retitled_stays() {
    let mut files = vec![
        file(None, Some("a"), None),
        file(None, Some("b"), Some("{")),
        file(None, Some("c"), Some("[]")),
    ];
    let body = "{\"title\": \"T\"}";
    assert!(matches!(retitle_run(&mut files, "x", body), RunChange::Missing));
    assert!(matches!(retitle_run(&mut files, "a", body), RunChange::Unreadable));
    let reason = serde_json::from_str::<serde_json::Value>("{").unwrap_err().to_string();
    assert!(matches!(retitle_run(&mut files, "b", body), RunChange::NotJson(m) if m == reason));
    assert!(matches!(retitle_run(&mut files, "c", body), RunChange::Unfit));
    assert_eq!(files[1].record.as_deref(), Some("{"));
}

#[test]
fn inner_groups_carry_the_path_to_them() {
    assert_eq!(inner_group(None, "a"), "a");
    assert_eq!(inner_group(Some("a"), "b"), "a/b");
}

#[test]
fn a_changed_record_is_printed_with_indents() {
    match set_group("{\"meta\":{\"a\":1}}", Some("g")) {
        MetaEdit::Edited(text) => assert_eq!(
            text,
            "{\n  \"meta\": {\n    \"a\": 1,\n    \"experiment_group\": \"g\"\n  }\n}"
        ),
        other => panic!("{other:?}"),
    }
    match set_group("null", None) {
        MetaEdit::Edited(text) => {
            assert_eq!(text, "{\n  \"meta\": {\n    \"experiment_group\": null\n  }\n}")
        }
        other => panic!("{other:?}"),
    }
}

#[test]
fn what_is_no_record_is_not_changed() {
    for record in ["[]", "7", "{\"meta\": []}", "{\"meta\": \"x\"}"] {
        assert!(matches!(set_tags(record, Vec::new()), MetaEdit::Unfit), "{record}");
    }
    let reason = serde_json::from_str::<serde_json::Value>("{").unwrap_err().to_string();
    assert!(matches!(set_tags("{", Vec::new()), MetaEdit::NotJson(m) if m == reason));
}

#[test]
fn a_group_is_named_by_a_string() {
    assert_eq!(requested_group("{\"experiment_group\": \"g\"}").as_deref(), Some("g"));
    assert_eq!(requested_group("{\"experiment_group\": 7}"), None);
    assert_eq!(requested_group("{}"), None);
}

fn fields(run_id: Option<&str>, timestamp: Option<&str>) -> RunFields {
    RunFields {
        run_id: run_id.map(|s| s.to_string()),
        title: None,
        notes: None,
        timestamp: timestamp.map(|s| s.to_string()),
        tags: Vec::new(),
        description: None,
        document_name: None,
        llm_calls: Some(7),
        tokens_input: None,
        tokens_output: None,
        total_findings: None,
        high_findings: None,
        coordinator_enabled: None,
        llm_model: None,
        embed_engine: None,
    }
}

#[test]
fn what_a_record_lacks_is_filled_in() {
    let s = fill_summary(fields(None, some("t").as_deref()), None, 1);
    assert_eq!((s.run_id.as_str(), s.timestamp.as_str()), ("?", "t"));
    assert_eq!((s.llm_calls, s.tokens_input), (7, 0));
    assert_eq!(keep_strings(&owned(&["\"a\"", "1", "\"b\""])), vec!["a", "b"]);
}

#[test]
fn records_are_listed_with_the_newest_first() {
    let list: Vec<RunSummary> = [("a", "2025-01"), ("b", "2025-03"), ("c", "2025-01"), ("d", "2025-02")]
        .into_iter()
        .enumerate()
        .map(|(i, (id, t))| fill_summary(fields(Some(id), Some(t)), None, i))
        .collect();
    let ids: Vec<String> = sort_newest_first(list).into_iter().map(|s| s.run_id).collect();
    assert_eq!(ids, vec!["b", "d", "a", "c"]);
}

#[test]
fn groups_are_listed_by_name() {
    assert_eq!(sort_names(owned(&["b", "组", "a", "ab", "b"])), vec!["a", "ab", "b", "b", "组"]);
}

#[test]
fn a_run_is_found_by_the_name_of_its_file() {
    let stems = vec![some("a"), None, some("b"), some("b")];
    assert_eq!(find_run(&stems, "b"), Some(2));
    assert_eq!(find_run(&stems, "c"), None);
    assert_eq!(group_directory("runs", None), "runs");
    assert_eq!(group_directory("runs", Some("")), "runs");
    assert_eq!(group_directory("runs", Some("g")), "runs/g");
}

// ── Tools ──

#[test]
fn tools_are_kept_by_name() {
    assert!(ToolRegistry::<u32>::default().definitions().is_empty());
    let mut registry: ToolRegistry<u32> = ToolRegistry::new();
    registry.register("a".to_string(), 1);
    registry.register("b".to_string(), 2);
    registry.register("a".to_string(), 3);
    registry.register("c".to_string(), 4);
    assert_eq!(registry.get("a"), Some(&3));
    assert_eq!(registry.get("x"), None);
    assert!(registry.contains("b") && !registry.contains("x"));
    let mut all: Vec<u32> = registry.definitions().into_iter().copied().collect();
    all.sort();
    assert_eq!(all, vec![2, 3, 4]);
    let filtered: Vec<u32> = registry
        .definitions_filtered(&owned(&["c", "x", "b"]))
        .into_iter()
        .copied()
        .collect();
    assert_eq!(filtered, vec![2, 4]);
    registry.retain_only(&["a", "x"]);
    assert!(registry.contains("a") && !registry.contains("b"));
    assert_eq!(registry.definitions().len(), 1);
}

#[test]
fn a_hit_is_cut_and_then_restored() {
    let text = "甲".repeat(250);
    let restore = |t: &str| format!("<{t}>");
    let shown = show_hit("标题", &text, &restore);
    assert_eq!(shown.title, "<标题>");
    assert_eq!(shown.snippet, format!("<{}>", "甲".repeat(200)));
}

#[test]
fn settings_have_defaults() {
    let settings = Settings::new(None, None);
    assert_eq!(settings.embed_engine, "local");
    assert_eq!(settings.search_backend, "dashscope");
    assert!(!settings.embeds_remotely());
    assert!(settings.has_search_client());
    let settings = Settings::new(some("remote"), some("searxng"));
    assert!(settings.embeds_remotely());
    assert!(!settings.has_search_client());
    assert_eq!(model_name(some("a"), some("b")), "a");
    assert_eq!(model_name(None, some("b")), "b");
    assert_eq!(model_name(None, None), "qwen-plus");
}

#[test]
fn every_block_has_a_section() {
    let pages = vec![
        page(0, &[("a", "甲"), ("b", "乙")]),
        page(1, &[("c", "丙")]),
        page(4, &[("d", "丁")]),
    ];
    let sections = vec![section("第一章", &["a"], vec![section("一", &["c"], vec![])])];
    let all = add_orphan_sections(sections, &pages);
    assert_eq!(all.len(), 3);
    let ids: Vec<String> = all.iter().flat_map(|s| collect_all_block_ids(s)).collect();
    for block in pages.iter().flat_map(|p| &p.blocks) {
        assert!(ids.contains(&block.id), "{}", block.id);
    }
}
