//! What leaves for a remote model.

use ai_bid::api::Chunk;
use ai_bid::chat::{ChatMessage, ChatMessageDto, ChatRequest, TextSelection};
use ai_bid::redaction::{
    outgoing_question, outgoing_texts, redacted_question, review_copy, to_question,
};

fn chunk(id: &str, text: &str, path: &[&str]) -> Chunk {
    Chunk {
        chunk_id: id.to_string(),
        page_start: 3,
        section_path: path.iter().map(|s| s.to_string()).collect(),
        text: text.to_string(),
        source_block_ids: vec!["b_3_1".to_string()],
    }
}

fn hidden(list: &[String]) -> Vec<String> {
    list.iter().map(|t| t.replace("张三", "[姓名]")).collect()
}

#[test]
fn each_piece_gets_its_own_texts() {
    let chunks = vec![
        chunk("c1", "联系人张三", &["第一章", "张三的承诺"]),
        chunk("c2", "无", &[]),
        chunk("c3", "张三", &["第二章"]),
    ];
    let out = outgoing_texts(&chunks);
    assert_eq!(out, ["联系人张三", "第一章", "张三的承诺", "无", "张三", "第二章"]);
    let copies = review_copy(&chunks, &hidden(&out));
    assert_eq!(copies.len(), 3);
    assert_eq!(copies[0].text, "联系人[姓名]");
    assert_eq!(copies[0].section_path, ["第一章", "[姓名]的承诺"]);
    assert_eq!(copies[0].chunk_id, "c1");
    assert_eq!(copies[0].page_start, 3);
    assert_eq!(copies[0].source_block_ids, ["b_3_1"]);
    assert_eq!(copies[1].text, "无");
    assert!(copies[1].section_path.is_empty());
    assert_eq!(copies[2].text, "[姓名]");
    assert_eq!(copies[2].section_path, ["第二章"]);
    assert_eq!(chunks[0].text, "联系人张三");
}

#[test]
fn without_redaction_the_pieces_stay() {
    let chunks = vec![chunk("c1", "甲", &["乙"]), chunk("c2", "丙", &[])];
    let copies = review_copy(&chunks, &outgoing_texts(&chunks));
    for (copy, chunk) in copies.iter().zip(&chunks) {
        assert_eq!(copy.text, chunk.text);
        assert_eq!(copy.section_path, chunk.section_path);
    }
    assert!(review_copy(&Vec::new(), &Vec::new()).is_empty());
}

fn said(role: &str, content: Option<&str>) -> ChatMessageDto {
    ChatMessageDto {
        role: role.to_string(),
        content: content.map(str::to_string),
        tool_call_id: None,
    }
}

#[test]
fn a_question_leaves_without_its_sensitive_parts() {
    let question = to_question(ChatRequest {
        user_input: "张三是谁".to_string(),
        selection: Some(TextSelection { text: "张三签字".to_string() }),
        history: Some(vec![
            said("system", None),
            said("assistant", None),
            said("assistant", Some("张三好")),
            said("user", Some("问张三")),
        ]),
        max_turns: None,
    });
    let out = outgoing_question(&question);
    assert_eq!(out, ["张三签字", "张三是谁", "", "张三好", "问张三"]);
    let seen = redacted_question(question, &hidden(&out));
    assert_eq!(seen.selection.as_deref(), Some("[姓名]签字"));
    assert_eq!(seen.user_input, "[姓名]是谁");
    let history = seen.history.unwrap();
    assert_eq!(history.len(), 4);
    assert!(matches!(&history[0], ChatMessage::System(t) if t.is_empty()));
    assert!(matches!(&history[1], ChatMessage::Assistant(None)));
    assert!(matches!(&history[2], ChatMessage::Assistant(Some(t)) if t == "[姓名]好"));
    assert!(matches!(&history[3], ChatMessage::User(t) if t == "问[姓名]"));
}

#[test]
fn a_bare_question_is_its_input() {
    let question = to_question(ChatRequest {
        user_input: "工期多长".to_string(),
        selection: None,
        history: None,
        max_turns: Some(3),
    });
    assert_eq!(outgoing_question(&question), ["工期多长"]);
    let seen = redacted_question(question, &vec!["x".to_string()]);
    assert_eq!(seen.user_input, "x");
    assert!(seen.selection.is_none());
    assert!(seen.history.is_none());
}
