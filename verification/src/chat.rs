//! Talking about a document: the history of a talk, the tools of the agents, and their answers.

use crate::review::restore_list;
use crate::text::same_text;
use vstd::prelude::*;

verus! {

// ── Messages ──

/// A message as a client sends it.
#[derive(Debug, Clone)]
pub struct ChatMessageDto {
    pub role: String,
    pub content: Option<String>,
    pub tool_call_id: Option<String>,
}

/// A passage that the user has marked.
#[derive(Debug)]
pub struct TextSelection {
    pub text: String,
}

/// What a client asks.
#[derive(Debug)]
pub struct ChatRequest {
    pub user_input: String,
    pub selection: Option<TextSelection>,
    pub history: Option<Vec<ChatMessageDto>>,
    pub max_turns: Option<usize>,
}

/// A message as a model gets it.
#[derive(Debug)]
pub enum ChatMessage {
    System(String),
    Assistant(Option<String>),
    User(String),
}

/// The model of a message.
pub enum MessageView {
    System(Seq<char>),
    Assistant(Option<Seq<char>>),
    User(Seq<char>),
}

impl View for ChatMessage {
    type V = MessageView;

    open spec fn view(&self) -> MessageView {
        match self {
            ChatMessage::System(content) => MessageView::System(content@),
            ChatMessage::Assistant(content) => MessageView::Assistant(
                crate::outside::optional_text(*content),
            ),
            ChatMessage::User(content) => MessageView::User(content@),
        }
    }
}

/// The message that a client's message stands for. One of an unknown role is the user's.
pub open spec fn message_of(dto: ChatMessageDto) -> MessageView {
    if dto.role@ == "system"@ {
        MessageView::System(crate::operand::text_or_empty(dto.content))
    } else if dto.role@ == "assistant"@ {
        MessageView::Assistant(crate::outside::optional_text(dto.content))
    } else {
        MessageView::User(crate::operand::text_or_empty(dto.content))
    }
}

/// The message that a client's message stands for.
pub fn to_message(dto: ChatMessageDto) -> (message: ChatMessage)
    ensures
        message@ == message_of(dto),
{
    if same_text(dto.role.as_str(), "assistant") {
        proof {
            reveal_strlit("system");
            reveal_strlit("assistant");
            assert("system"@.len() != "assistant"@.len());
        }
        return ChatMessage::Assistant(dto.content);
    }
    let content = match dto.content {
        Some(c) => c,
        None => String::new(),
    };
    if same_text(dto.role.as_str(), "system") {
        ChatMessage::System(content)
    } else {
        ChatMessage::User(content)
    }
}

/// The messages that a client's history stands for, in its order.
pub fn to_messages(history: Vec<ChatMessageDto>) -> (messages: Vec<ChatMessage>)
    ensures
        messages@.map_values(|m: ChatMessage| m@) == history@.map_values(
            |d: ChatMessageDto| message_of(d),
        ),
{
    let ghost all = history@;
    let mut messages: Vec<ChatMessage> = Vec::new();
    for dto in iter: history
        invariant
            iter.seq() == all,
            messages@.len() == iter.index(),
            forall|k: int|
                0 <= k < iter.index() ==> (#[trigger] messages@[k])@ == message_of(all[k]),
    {
        let message = to_message(dto);
        messages.push(message);
    }
    assert(messages@.map_values(|m: ChatMessage| m@) == all.map_values(
        |d: ChatMessageDto| message_of(d),
    ));
    messages
}

// ── Tools ──

/// A tool of an agent.
#[derive(Debug, Clone, Copy, PartialEq, Eq, Structural)]
pub enum ToolKind {
    SearchDocument,
    ReadSection,
    SearchKnowledge,
    AnswerUser,
    OutputFinding,
}

/// The tools of an agent: those that depend on a service only where it is there, and one that
/// ends its work.
pub open spec fn tools_for(embedder: bool, search: bool, last: ToolKind) -> Seq<ToolKind> {
    (if embedder {
        seq![ToolKind::SearchDocument]
    } else {
        Seq::empty()
    }) + seq![ToolKind::ReadSection] + (if search {
        seq![ToolKind::SearchKnowledge]
    } else {
        Seq::empty()
    }) + seq![last]
}

/// The tools of an agent.
fn tool_list(embedder: bool, search: bool, last: ToolKind) -> (tools: Vec<ToolKind>)
    ensures
        tools@ == tools_for(embedder, search, last),
{
    let mut tools: Vec<ToolKind> = Vec::new();
    if embedder {
        tools.push(ToolKind::SearchDocument);
    }
    tools.push(ToolKind::ReadSection);
    if search {
        tools.push(ToolKind::SearchKnowledge);
    }
    tools.push(last);
    assert(tools@ == tools_for(embedder, search, last));
    tools
}

/// The tools of the agent that answers a user.
pub fn chat_tools(embedder: bool, search: bool) -> (tools: Vec<ToolKind>)
    ensures
        tools@ == tools_for(embedder, search, ToolKind::AnswerUser),
{
    tool_list(embedder, search, ToolKind::AnswerUser)
}

/// The tools of the agents that review a document. They search with one backend only.
pub fn review_tools(embedder: bool, backend: &str, search: bool) -> (tools: Vec<ToolKind>)
    ensures
        tools@ == tools_for(
            embedder,
            backend@ == "dashscope"@ && search,
            ToolKind::OutputFinding,
        ),
{
    let searches = same_text(backend, "dashscope") && search;
    tool_list(embedder, searches, ToolKind::OutputFinding)
}

// ── Answers ──

/// A passage that an answer refers to.
#[derive(Debug)]
pub struct BlockRef {
    pub quote: String,
    pub snippet: String,
}

/// An answer.
#[derive(Debug)]
pub struct ChatResponse {
    pub answer: String,
    pub reasoning: Vec<String>,
    pub references: Vec<BlockRef>,
    pub suggested_actions: Vec<String>,
}

/// Whether a reference is what restoring gives for another.
pub open spec fn is_restored_ref<F: Fn(&str) -> String>(
    restore: F,
    before: BlockRef,
    after: BlockRef,
) -> bool {
    crate::review::is_restored(restore, before.quote, after.quote) && crate::review::is_restored(
        restore,
        before.snippet,
        after.snippet,
    )
}

/// Restores each text of an answer.
pub fn restore_chat_response<F: Fn(&str) -> String>(response: ChatResponse, restore: &F) -> (
restored: ChatResponse)
    requires
        forall|s: &str| call_requires(*restore, (s,)),
    ensures
        crate::review::is_restored(*restore, response.answer, restored.answer),
        crate::review::are_restored(*restore, response.reasoning@, restored.reasoning@),
        restored.references@.len() == response.references@.len(),
        forall|i: int|
            0 <= i < restored.references@.len() ==> is_restored_ref(
                *restore,
                response.references@[i],
                #[trigger] restored.references@[i],
            ),
        crate::review::are_restored(
            *restore,
            response.suggested_actions@,
            restored.suggested_actions@,
        ),
{
    let answer = restore(response.answer.as_str());
    let reasoning = restore_list(response.reasoning, restore);
    let mut references: Vec<BlockRef> = Vec::new();
    let ghost given = response.references@;
    let mut i: usize = 0;
    while i < response.references.len()
        invariant
            i <= response.references.len(),
            given == response.references@,
            forall|s: &str| call_requires(*restore, (s,)),
            references@.len() == i,
            forall|k: int|
                0 <= k < i ==> is_restored_ref(*restore, given[k], #[trigger] references@[k]),
        decreases response.references.len() - i,
    {
        let quote = restore(response.references[i].quote.as_str());
        let snippet = restore(response.references[i].snippet.as_str());
        references.push(BlockRef { quote, snippet });
        i = i + 1;
    }
    let suggested_actions = restore_list(response.suggested_actions, restore);
    ChatResponse { answer, reasoning, references, suggested_actions }
}

// ── Laws ──

/// A message keeps its role and its text. Only a message of the assistant may be without a text, and
/// whoever has another role is the user.
pub proof fn a_message_keeps_its_role_and_text(dto: ChatMessageDto)
    ensures
        dto.role@ == "system"@ ==> (dto.content matches Some(text) ==> message_of(dto)
            == MessageView::System(text@)),
        dto.role@ == "system"@ && dto.content is None ==> message_of(dto) == MessageView::System(
            Seq::empty(),
        ),
        dto.role@ == "assistant"@ ==> (dto.content matches Some(text) ==> message_of(dto)
            == MessageView::Assistant(Some(text@))),
        dto.role@ == "assistant"@ && dto.content is None ==> message_of(dto)
            == MessageView::Assistant(None),
        dto.role@ != "system"@ && dto.role@ != "assistant"@ ==> (dto.content matches Some(text)
            ==> message_of(dto) == MessageView::User(text@)),
        dto.role@ != "system"@ && dto.role@ != "assistant"@ && dto.content is None ==> message_of(
            dto,
        ) == MessageView::User(Seq::empty()),
{
    reveal_strlit("system");
    reveal_strlit("assistant");
    assert("system"@.len() == 6 && "assistant"@.len() == 9);
}

/// An agent can always read a section and end its work, and searches what can be searched.
pub proof fn an_agent_has_the_tools_that_are_there(last: ToolKind)
    ensures
        tools_for(false, false, last) == seq![ToolKind::ReadSection, last],
        tools_for(true, false, last) == seq![ToolKind::SearchDocument, ToolKind::ReadSection, last],
        tools_for(false, true, last) == seq![ToolKind::ReadSection, ToolKind::SearchKnowledge, last],
        tools_for(true, true, last) == seq![
            ToolKind::SearchDocument,
            ToolKind::ReadSection,
            ToolKind::SearchKnowledge,
            last,
        ],
{
    assert(tools_for(false, false, last) =~= seq![ToolKind::ReadSection, last]);
    assert(tools_for(true, false, last) =~= seq![
        ToolKind::SearchDocument,
        ToolKind::ReadSection,
        last,
    ]);
    assert(tools_for(false, true, last) =~= seq![
        ToolKind::ReadSection,
        ToolKind::SearchKnowledge,
        last,
    ]);
    assert(tools_for(true, true, last) =~= seq![
        ToolKind::SearchDocument,
        ToolKind::ReadSection,
        ToolKind::SearchKnowledge,
        last,
    ]);
}

/// Both texts of a reference are restored, each from its own.
pub proof fn both_texts_of_a_reference_are_restored<F: Fn(&str) -> String>(
    restore: F,
    before: BlockRef,
    after: BlockRef,
)
    ensures
        is_restored_ref(restore, before, after) <==> crate::review::is_restored(
            restore,
            before.quote,
            after.quote,
        ) && crate::review::is_restored(restore, before.snippet, after.snippet),
{
}

/// A message is modelled by its role and its text.
pub proof fn a_message_is_its_role_and_text(text: String)
    ensures
        ChatMessage::System(text)@ == MessageView::System(text@),
        ChatMessage::User(text)@ == MessageView::User(text@),
        ChatMessage::Assistant(Some(text))@ == MessageView::Assistant(Some(text@)),
        ChatMessage::Assistant(None)@ == MessageView::Assistant(None),
{
}

} // verus!
