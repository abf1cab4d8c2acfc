//! The events that are streamed to a client.

use crate::number::decimal;
use crate::outside::{json_at, json_str};
use crate::text::{cut, find, same_text, starts_with};
use vstd::prelude::*;

verus! {

/// An event of a stream: its kind and its data.
#[derive(Debug)]
pub struct Frame {
    pub event: String,
    pub data: String,
}

/// The model of an event.
#[verifier::ext_equal]
pub struct FrameView {
    pub event: Seq<char>,
    pub data: Seq<char>,
}

impl View for Frame {
    type V = FrameView;

    open spec fn view(&self) -> FrameView {
        FrameView { event: self.event@, data: self.data@ }
    }
}

// ── Review events ──

/// A message of the bus is `event:`, the kind, a line break and the data; one without the kind
/// and the line break, or without `event:`, is of the kind `message`.
pub open spec fn message_parts(msg: Seq<char>) -> FrameView {
    if crate::text::begins_with(msg, "event:"@) {
        let rest = msg.skip(6);
        match crate::text::first_occurrence(rest, "\n"@) {
            Some(i) => FrameView { event: rest.take(i), data: rest.skip(i + 1) },
            None => FrameView { event: "message"@, data: rest },
        }
    } else {
        FrameView { event: "message"@, data: msg }
    }
}

/// A text, or another one in its place.
pub open spec fn text_or(text: Option<Seq<char>>, other: Seq<char>) -> Seq<char> {
    match text {
        Some(t) => t,
        None => other,
    }
}

/// A message of no kind of its own is unwrapped, given what it says of its kind and of its data;
/// `None` where the message is no JSON.
pub open spec fn unwrapped_with(
    data: Seq<char>,
    parts: Option<(Option<Seq<char>>, Option<Seq<char>>)>,
) -> FrameView {
    match parts {
        Some((event, inner)) => FrameView {
            event: text_or(event, "message"@),
            data: text_or(inner, data),
        },
        None => FrameView { event: "message"@, data },
    }
}

/// What a message says of its kind, if it is a string, and of its data.
pub open spec fn tagged_parts(data: Seq<char>) -> Option<(Option<Seq<char>>, Option<Seq<char>>)> {
    match crate::outside::json_member(data, "/data"@) {
        Some(inner) => Some((crate::outside::json_string(data, "/event"@), inner)),
        None => None,
    }
}

/// The event that a client gets for a message of the bus.
pub open spec fn review_frame(msg: Seq<char>) -> FrameView {
    let parts = message_parts(msg);
    if parts.event == "message"@ {
        unwrapped_with(parts.data, tagged_parts(parts.data))
    } else {
        parts
    }
}

/// The kind and the data of a message of the bus.
pub fn split_message(msg: &str) -> (parts: Frame)
    ensures
        parts@ == message_parts(msg@),
{
    proof {
        reveal_strlit("event:");
        reveal_strlit("\n");
    }
    if !starts_with(msg, "event:") {
        return Frame { event: "message".to_owned(), data: msg.to_owned() };
    }
    let size = msg.unicode_len();
    let rest = cut(msg, 6, size);
    assert(rest@ == msg@.skip(6));
    proof {
        crate::text::lemma_first_from(rest@, "\n"@, 0);
    }
    match find(rest.as_str(), "\n") {
        Some(i) => {
            let event = cut(rest.as_str(), 0, i);
            let data = cut(rest.as_str(), i + 1, rest.as_str().unicode_len());
            assert(event@ == rest@.take(i as int));
            assert(data@ == rest@.skip(i + 1));
            Frame { event, data }
        },
        None => Frame { event: "message".to_owned(), data: rest },
    }
}

/// The models of what a message says of its kind and of its data.
pub open spec fn part_texts(parts: Option<(Option<String>, Option<String>)>) -> Option<
    (Option<Seq<char>>, Option<Seq<char>>),
> {
    match parts {
        Some((event, inner)) => Some(
            (crate::outside::optional_text(event), crate::outside::optional_text(inner)),
        ),
        None => None,
    }
}

/// Unwraps a message of no kind of its own, given what it says of its kind and of its data.
pub fn unwrap_message(data: String, parts: Option<(Option<String>, Option<String>)>) -> (frame:
    Frame)
    ensures
        frame@ == unwrapped_with(data@, part_texts(parts)),
{
    match parts {
        Some((event, inner)) => {
            let kind = match event {
                Some(name) => name,
                None => "message".to_owned(),
            };
            let body = match inner {
                Some(text) => text,
                None => data,
            };
            Frame { event: kind, data: body }
        },
        None => Frame { event: "message".to_owned(), data },
    }
}

/// What a message says of its kind, if it is a string, and of its data.
fn read_parts(data: &str) -> (parts: Option<(Option<String>, Option<String>)>)
    ensures
        part_texts(parts) == tagged_parts(data@),
{
    match json_at(data, "/data") {
        Some(inner) => Some((json_str(data, "/event"), inner)),
        None => None,
    }
}

/// The event that a client gets for a message of the bus.
pub fn frame_of_message(msg: &str) -> (frame: Frame)
    ensures
        frame@ == review_frame(msg@),
{
    let parts = split_message(msg);
    if same_text(parts.event.as_str(), "message") {
        let tagged = read_parts(parts.data.as_str());
        unwrap_message(parts.data, tagged)
    } else {
        parts
    }
}

/// What comes from the bus.
#[derive(Debug)]
pub enum BusEvent {
    Message(String),
    /// The client was too slow, and this many messages were dropped.
    Lagged(u64),
    Closed,
}

/// What the stream does next.
#[derive(Debug)]
pub enum StreamStep {
    Send(Frame),
    Stop,
}

/// The event that tells a slow client how many messages were dropped. The review itself goes on.
pub open spec fn lag_view(dropped: u64) -> FrameView {
    FrameView {
        event: "stream_lagged"@,
        data: "{\"dropped\":"@ + crate::number::decimal_text(dropped as nat)
            + ",\"message\":\"SSE consumer lagged; progress events were dropped\"}"@,
    }
}

/// The event that tells a slow client how many messages were dropped.
pub fn lag_frame(dropped: u64) -> (frame: Frame)
    ensures
        frame@ == lag_view(dropped),
{
    let count = decimal(dropped);
    let mut data = "{\"dropped\":".to_owned();
    data.append(count.as_str());
    data.append(",\"message\":\"SSE consumer lagged; progress events were dropped\"}");
    Frame { event: "stream_lagged".to_owned(), data }
}

/// What the stream does with what comes from the bus. A client that was too slow is told so, and
/// the stream goes on.
pub fn next_step(event: BusEvent) -> (step: StreamStep)
    ensures
        match event {
            BusEvent::Message(msg) => step matches StreamStep::Send(frame) && frame@
                == review_frame(msg@),
            BusEvent::Lagged(n) => step matches StreamStep::Send(frame) && frame@ == lag_view(n),
            BusEvent::Closed => step == StreamStep::Stop,
        },
{
    match event {
        BusEvent::Message(msg) => StreamStep::Send(frame_of_message(msg.as_str())),
        BusEvent::Lagged(n) => StreamStep::Send(lag_frame(n)),
        BusEvent::Closed => StreamStep::Stop,
    }
}

// ── Chat events ──

/// What comes from a chat agent. An answer comes as JSON text.
#[derive(Debug)]
pub enum ChatEvent {
    Thinking(String),
    ToolCall { name: String, args: String },
    Answer(String),
    Done(String),
    Error(String),
}

/// The data of an event that is a message.
pub open spec fn message_data(message: Seq<char>) -> Seq<char> {
    "{\"message\":\""@ + message + "\"}"@
}

/// The event that a client gets for one of the agent.
pub open spec fn chat_frame(event: ChatEvent) -> FrameView {
    match event {
        ChatEvent::Thinking(message) => FrameView {
            event: "thinking"@,
            data: message_data(message@),
        },
        ChatEvent::ToolCall { name, args } => FrameView {
            event: "tool_call"@,
            data: "{\"name\":\""@ + name@ + "\",\"args\":\""@ + args@ + "\"}"@,
        },
        ChatEvent::Answer(json) => FrameView { event: "answer"@, data: json@ },
        ChatEvent::Done(json) => FrameView { event: "done"@, data: json@ },
        ChatEvent::Error(message) => FrameView { event: "error"@, data: message_data(message@) },
    }
}

/// Whether nothing follows an event.
pub open spec fn ends_chat(event: ChatEvent) -> bool {
    event is Done || event is Error
}

/// The data of an event that is a message.
fn make_message(message: &str) -> (data: String)
    ensures
        data@ == message_data(message@),
{
    let mut data = "{\"message\":\"".to_owned();
    data.append(message);
    data.append("\"}");
    data
}

/// The event that tells a client of an error.
pub fn error_frame(message: &str) -> (frame: Frame)
    ensures
        frame@ == (FrameView { event: "error"@, data: message_data(message@) }),
{
    Frame { event: "error".to_owned(), data: make_message(message) }
}

/// The event that a client gets for one of the agent, and whether it is the last.
pub fn frame_of_chat(event: ChatEvent) -> (step: (Frame, bool))
    ensures
        step.0@ == chat_frame(event),
        step.1 == ends_chat(event),
{
    match event {
        ChatEvent::Thinking(message) => (
            Frame { event: "thinking".to_owned(), data: make_message(message.as_str()) },
            false,
        ),
        ChatEvent::ToolCall { name, args } => {
            let mut data = "{\"name\":\"".to_owned();
            data.append(name.as_str());
            data.append("\",\"args\":\"");
            data.append(args.as_str());
            data.append("\"}");
            (Frame { event: "tool_call".to_owned(), data }, false)
        },
        ChatEvent::Answer(json) => (Frame { event: "answer".to_owned(), data: json }, false),
        ChatEvent::Done(json) => (Frame { event: "done".to_owned(), data: json }, true),
        ChatEvent::Error(message) => (error_frame(message.as_str()), true),
    }
}

// ── Laws ──

/// A message with a kind in front of it comes apart into that kind and its data, whatever the
/// data are.
pub proof fn a_tagged_message_comes_apart(kind: Seq<char>, data: Seq<char>)
    requires
        !kind.contains('\n'),
        kind != "message"@,
    ensures
        review_frame("event:"@ + kind + "\n"@ + data) == (FrameView { event: kind, data }),
{
    reveal_strlit("event:");
    reveal_strlit("\n");
    let line = "\n"@;
    let msg = "event:"@ + kind + line + data;
    assert(msg.subrange(0, 6) == "event:"@);
    assert(crate::text::occurs_at(msg, "event:"@, 0));
    let rest = msg.skip(6);
    assert(rest == kind + line + data);
    let end = kind.len() as int;
    assert(rest.subrange(end, end + 1) == line);
    assert(crate::text::occurs_at(rest, line, end));
    assert forall|j: int| 0 <= j < end implies !#[trigger] crate::text::occurs_at(
        rest,
        line,
        j,
    ) by {
        if crate::text::occurs_at(rest, line, j) {
            assert(rest.subrange(j, j + 1)[0] == '\n');
            assert(kind[j] == '\n');
        }
    }
    crate::text::lemma_first_from(rest, line, 0);
    assert(rest.take(end) == kind);
    assert(rest.skip(end + 1) == data);
}

/// A message that is no JSON and has no kind in front of it reaches the client as it is.
pub proof fn a_plain_message_stays(msg: Seq<char>)
    requires
        !crate::text::begins_with(msg, "event:"@),
        crate::outside::json_member(msg, "/data"@) is None,
    ensures
        review_frame(msg) == (FrameView { event: "message"@, data: msg }),
{
}

/// A message that names a kind but has no line break has no kind of its own, and is what stands
/// behind `event:`; one without `event:` is all of it.
pub proof fn a_message_without_a_line_break_has_no_kind(msg: Seq<char>)
    ensures
        !msg.contains('\n') ==> message_parts("event:"@ + msg) == (FrameView {
            event: "message"@,
            data: msg,
        }),
        !crate::text::begins_with(msg, "event:"@) ==> message_parts(msg) == (FrameView {
            event: "message"@,
            data: msg,
        }),
{
    crate::text::a_written_word_is_contained(Seq::empty(), "event:"@, msg);
    reveal_strlit("event:");
    reveal_strlit("\n");
    let rest = ("event:"@ + msg).skip(6);
    assert(rest =~= msg);
    crate::text::lemma_first_from(rest, "\n"@, 0);
    if let Some(i) = crate::text::first_occurrence(rest, "\n"@) {
        assert(rest.subrange(i, i + 1)[0] == '\n');
        assert(msg[i] == '\n');
    }
}

/// A message comes apart at its first line break: the kind before it, all else behind it.
pub proof fn a_message_comes_apart_at_its_first_line_break(kind: Seq<char>, data: Seq<char>)
    requires
        !kind.contains('\n'),
    ensures
        message_parts("event:"@ + kind + "\n"@ + data) == (FrameView { event: kind, data }),
{
    reveal_strlit("event:");
    reveal_strlit("\n");
    let line = "\n"@;
    let msg = "event:"@ + kind + line + data;
    assert(msg.subrange(0, 6) =~= "event:"@);
    assert(crate::text::occurs_at(msg, "event:"@, 0));
    let rest = msg.skip(6);
    assert(rest =~= kind + line + data);
    let end = kind.len() as int;
    assert(rest.subrange(end, end + 1) =~= line);
    assert(crate::text::occurs_at(rest, line, end));
    assert forall|j: int| 0 <= j < end implies !#[trigger] crate::text::occurs_at(
        rest,
        line,
        j,
    ) by {
        if crate::text::occurs_at(rest, line, j) {
            assert(rest.subrange(j, j + 1)[0] == '\n');
            assert(kind[j] == '\n');
        }
    }
    crate::text::lemma_first_from(rest, line, 0);
    assert(rest.take(end) =~= kind);
    assert(rest.skip(end + 1) =~= data);
}

/// A message of no kind of its own takes its kind and its data from what it says of them, and keeps
/// what it does not say.
pub proof fn a_message_is_unwrapped_as_far_as_it_tells(
    data: Seq<char>,
    event: Seq<char>,
    inner: Seq<char>,
)
    ensures
        unwrapped_with(data, None) == (FrameView { event: "message"@, data }),
        unwrapped_with(data, Some((None, None))) == (FrameView { event: "message"@, data }),
        unwrapped_with(data, Some((Some(event), None))) == (FrameView { event, data }),
        unwrapped_with(data, Some((None, Some(inner)))) == (FrameView {
            event: "message"@,
            data: inner,
        }),
        unwrapped_with(data, Some((Some(event), Some(inner)))) == (FrameView { event, data: inner }),
{
}

/// A message that is JSON tells its kind by the string at `event` and its data by what is at `data`.
pub proof fn a_message_tells_its_kind_and_data(msg: Seq<char>)
    requires
        !crate::text::begins_with(msg, "event:"@),
        crate::outside::json_member(msg, "/data"@) is Some,
    ensures
        ({
            let frame = review_frame(msg);
            &&& crate::outside::json_string(msg, "/event"@) matches Some(kind) ==> frame.event == kind
            &&& crate::outside::json_string(msg, "/event"@) is None ==> frame.event == "message"@
            &&& crate::outside::json_member(msg, "/data"@)->0 matches Some(inner) ==> frame.data
                == inner
            &&& crate::outside::json_member(msg, "/data"@)->0 is None ==> frame.data == msg
        }),
{
}

/// A slow client is told how many messages it missed, by their number.
pub proof fn a_slow_client_is_told_the_number(dropped: u64, other: u64)
    ensures
        lag_view(dropped).event == "stream_lagged"@,
        lag_view(dropped).data == "{\"dropped\":"@ + crate::number::decimal_text(dropped as nat)
            + ",\"message\":\"SSE consumer lagged; progress events were dropped\"}"@,
        lag_view(dropped) == lag_view(other) ==> dropped == other,
{
    if lag_view(dropped) == lag_view(other) {
        let (a, b) = (
            crate::number::decimal_text(dropped as nat),
            crate::number::decimal_text(other as nat),
        );
        let head = "{\"dropped\":"@;
        let end = ",\"message\":\"SSE consumer lagged; progress events were dropped\"}"@;
        let (x, y) = (lag_view(dropped).data, lag_view(other).data);
        assert(x.subrange(head.len() as int, x.len() - end.len()) =~= a);
        assert(y.subrange(head.len() as int, y.len() - end.len()) =~= b);
        crate::number::decimal_text_is_injective(dropped as nat, other as nat);
    }
}

/// Each event of an agent reaches the client under the name of its kind, with all that it says; an
/// answer and the end as they are.
pub proof fn each_chat_event_has_its_name_and_data(text: String, args: String)
    ensures
        chat_frame(ChatEvent::Thinking(text)) == (FrameView {
            event: "thinking"@,
            data: "{\"message\":\""@ + text@ + "\"}"@,
        }),
        chat_frame(ChatEvent::ToolCall { name: text, args }) == (FrameView {
            event: "tool_call"@,
            data: "{\"name\":\""@ + text@ + "\",\"args\":\""@ + args@ + "\"}"@,
        }),
        chat_frame(ChatEvent::Answer(text)) == (FrameView { event: "answer"@, data: text@ }),
        chat_frame(ChatEvent::Done(text)) == (FrameView { event: "done"@, data: text@ }),
        chat_frame(ChatEvent::Error(text)) == (FrameView {
            event: "error"@,
            data: "{\"message\":\""@ + text@ + "\"}"@,
        }),
{
}

/// A talk goes on until it is done or has failed.
pub proof fn a_talk_ends_when_done_or_failed(text: String, args: String)
    ensures
        ends_chat(ChatEvent::Done(text)),
        ends_chat(ChatEvent::Error(text)),
        !ends_chat(ChatEvent::Thinking(text)),
        !ends_chat(ChatEvent::ToolCall { name: text, args }),
        !ends_chat(ChatEvent::Answer(text)),
{
}

/// An event is modelled by its kind and its data, and what a message says by its texts.
pub proof fn an_event_is_its_kind_and_data(frame: Frame, event: Option<String>, inner: Option<String>)
    ensures
        frame@.event == frame.event@,
        frame@.data == frame.data@,
        part_texts(None) is None,
        part_texts(Some((event, inner))) == Some(
            (
                match event {
                    Some(s) => Some(s@),
                    None => None,
                },
                match inner {
                    Some(s) => Some(s@),
                    None => None,
                },
            ),
        ),
{
}

} // verus!
