//! What leaves for a remote model: texts from which the sensitive parts have been taken out.
//!
//! A vault takes those parts out, one text after the other, and remembers them. This module says
//! which texts go to the vault and in which order, and puts the texts that come back in their
//! places. A model sees those and no others.

use crate::api::Chunk;
use crate::chat::{to_messages, ChatMessage, ChatRequest, MessageView};
use vstd::prelude::*;

verus! {

// ── Pieces of a document ──

/// The texts of a piece that a model sees: its text, and then the parts of its section path.
pub open spec fn chunk_texts(chunk: Chunk) -> Seq<Seq<char>> {
    seq![chunk.text@] + crate::text::texts(chunk.section_path@)
}

/// The texts of some pieces that a model sees, piece by piece.
pub open spec fn all_chunk_texts(chunks: Seq<Chunk>) -> Seq<Seq<char>>
    decreases chunks.len(),
{
    if chunks.len() == 0 {
        Seq::empty()
    } else {
        all_chunk_texts(chunks.drop_last()) + chunk_texts(chunks.last())
    }
}

/// Whether a piece is another one, but for the texts that a model sees.
pub open spec fn is_copy_of(copy: Chunk, chunk: Chunk) -> bool {
    &&& copy.chunk_id@ == chunk.chunk_id@
    &&& copy.page_start == chunk.page_start
    &&& copy.section_path@.len() == chunk.section_path@.len()
    &&& crate::text::texts(copy.source_block_ids@) == crate::text::texts(chunk.source_block_ids@)
}

/// Whether some pieces are others, one for one, but for the texts that a model sees.
pub open spec fn are_copies_of(copies: Seq<Chunk>, chunks: Seq<Chunk>) -> bool {
    &&& copies.len() == chunks.len()
    &&& forall|i: int| 0 <= i < copies.len() ==> is_copy_of(#[trigger] copies[i], chunks[i])
}

/// Copies a string to the end of a list.
fn push_copy(list: &mut Vec<String>, text: &String)
    ensures
        crate::text::texts(final(list)@) == crate::text::texts(old(list)@).push(text@),
{
    let ghost before = list@;
    list.push(text.clone());
    assert(crate::text::texts(list@) == crate::text::texts(before).push(text@));
}

/// The texts of some pieces that a model sees, piece by piece.
pub fn outgoing_texts(chunks: &Vec<Chunk>) -> (list: Vec<String>)
    ensures
        crate::text::texts(list@) == all_chunk_texts(chunks@),
{
    let mut list: Vec<String> = Vec::new();
    let mut i: usize = 0;
    assert(crate::text::texts(list@) == all_chunk_texts(chunks@.take(0)));
    while i < chunks.len()
        invariant
            i <= chunks.len(),
            crate::text::texts(list@) == all_chunk_texts(chunks@.take(i as int)),
        decreases chunks.len() - i,
    {
        let chunk = &chunks[i];
        let ghost before = crate::text::texts(list@);
        let ghost path = crate::text::texts(chunk.section_path@);
        push_copy(&mut list, &chunk.text);
        let mut k: usize = 0;
        assert(path.take(0) == Seq::<Seq<char>>::empty());
        while k < chunk.section_path.len()
            invariant
                k <= chunk.section_path.len(),
                path == crate::text::texts(chunk.section_path@),
                crate::text::texts(list@) == before + seq![chunk.text@] + path.take(k as int),
            decreases chunk.section_path.len() - k,
        {
            push_copy(&mut list, &chunk.section_path[k]);
            assert(path.take(k + 1) == path.take(k as int).push(path[k as int]));
            k = k + 1;
        }
        assert(path.take(k as int) == path);
        assert(chunks@.take(i + 1).drop_last() == chunks@.take(i as int));
        assert(chunks@.take(i + 1).last() == *chunk);
        assert(crate::text::texts(list@) == all_chunk_texts(chunks@.take(i + 1)));
        i = i + 1;
    }
    assert(chunks@.take(i as int) == chunks@);
    list
}

/// Some pieces have no more texts than all.
proof fn lemma_no_more_texts(chunks: Seq<Chunk>, i: int)
    requires
        0 <= i <= chunks.len(),
    ensures
        all_chunk_texts(chunks.take(i)).len() <= all_chunk_texts(chunks).len(),
    decreases chunks.len() - i,
{
    if i < chunks.len() {
        assert(chunks.take(i + 1).drop_last() == chunks.take(i));
        lemma_no_more_texts(chunks, i + 1);
    } else {
        assert(chunks.take(i) == chunks);
    }
}

/// The pieces as a model may see them: in place of each text that it sees stands what the vault
/// gave for it, in the order of `outgoing_texts`. All else stays.
pub fn review_copy(chunks: &Vec<Chunk>, redacted: &Vec<String>) -> (copies: Vec<Chunk>)
    requires
        redacted@.len() == all_chunk_texts(chunks@).len(),
    ensures
        are_copies_of(copies@, chunks@),
        all_chunk_texts(copies@) == crate::text::texts(redacted@),
{
    let ghost given = crate::text::texts(redacted@);
    let mut copies: Vec<Chunk> = Vec::new();
    let mut next: usize = 0;
    let mut i: usize = 0;
    assert(all_chunk_texts(copies@) == given.take(0));
    while i < chunks.len()
        invariant
            i <= chunks.len(),
            given == crate::text::texts(redacted@),
            redacted@.len() == all_chunk_texts(chunks@).len(),
            next == all_chunk_texts(chunks@.take(i as int)).len(),
            next <= redacted@.len(),
            are_copies_of(copies@, chunks@.take(i as int)),
            all_chunk_texts(copies@) == given.take(next as int),
        decreases chunks.len() - i,
    {
        let chunk = &chunks[i];
        let ghost start = next as int;
        proof {
            lemma_no_more_texts(chunks@, i + 1);
            assert(chunks@.take(i + 1).drop_last() == chunks@.take(i as int));
            assert(chunks@.take(i + 1).last() == *chunk);
        }
        assert(next < redacted.len());
        let text = redacted[next].clone();
        next = next + 1;
        let mut section_path: Vec<String> = Vec::new();
        let mut k: usize = 0;
        while k < chunk.section_path.len()
            invariant
                k <= chunk.section_path.len(),
                given == crate::text::texts(redacted@),
                0 <= start,
                next == start + 1 + k,
                start + 1 + chunk.section_path@.len() <= redacted@.len(),
                section_path@.len() == k,
                crate::text::texts(section_path@) == given.subrange(start + 1, start + 1 + k),
            decreases chunk.section_path.len() - k,
        {
            assert(next < redacted.len());
            push_copy(&mut section_path, &redacted[next]);
            assert(given.subrange(start + 1, start + 2 + k) == given.subrange(
                start + 1,
                start + 1 + k,
            ).push(given[next as int]));
            assert(crate::text::texts(section_path@).len() == section_path@.len());
            next = next + 1;
            k = k + 1;
        }
        let copy = Chunk {
            chunk_id: chunk.chunk_id.clone(),
            page_start: chunk.page_start,
            section_path,
            text,
            source_block_ids: chunk.source_block_ids.clone(),
        };
        let ghost before = copies@;
        copies.push(copy);
        proof {
            assert(crate::text::texts(copy.source_block_ids@)
                == crate::text::texts(chunk.source_block_ids@));
            assert(copies@.drop_last() == before);
            assert(chunk_texts(copy) == given.subrange(start, next as int));
            assert(all_chunk_texts(copies@) == given.take(next as int));
            assert forall|j: int| 0 <= j < copies@.len() implies is_copy_of(
                #[trigger] copies@[j],
                chunks@.take(i + 1)[j],
            ) by {
                if j < i {
                    assert(is_copy_of(before[j], chunks@.take(i as int)[j]));
                }
            }
        }
        i = i + 1;
    }
    assert(chunks@.take(i as int) == chunks@);
    assert(given.take(next as int) == given);
    copies
}

// ── Questions ──

/// A question about a document.
#[derive(Debug)]
pub struct Question {
    /// The passage that the user has marked.
    pub selection: Option<String>,
    pub user_input: String,
    /// What has been said before.
    pub history: Option<Vec<ChatMessage>>,
}

/// The model of a question.
pub struct QuestionView {
    pub selection: Option<Seq<char>>,
    pub user_input: Seq<char>,
    pub history: Option<Seq<MessageView>>,
}

/// The models of some messages.
pub open spec fn message_views(list: Seq<ChatMessage>) -> Seq<MessageView> {
    list.map_values(|m: ChatMessage| m@)
}

impl View for Question {
    type V = QuestionView;

    open spec fn view(&self) -> QuestionView {
        QuestionView {
            selection: crate::outside::optional_text(self.selection),
            user_input: self.user_input@,
            history: match self.history {
                Some(list) => Some(message_views(list@)),
                None => None,
            },
        }
    }
}

/// The question that a client asks.
pub open spec fn question_of(req: ChatRequest) -> QuestionView {
    QuestionView {
        selection: match req.selection {
            Some(s) => Some(s.text@),
            None => None,
        },
        user_input: req.user_input@,
        history: match req.history {
            Some(list) => Some(
                list@.map_values(|d: crate::chat::ChatMessageDto| crate::chat::message_of(d)),
            ),
            None => None,
        },
    }
}

/// The question that a client asks.
pub fn to_question(req: ChatRequest) -> (question: Question)
    ensures
        question@ == question_of(req),
{
    let selection = match req.selection {
        Some(s) => Some(s.text),
        None => None,
    };
    let history = match req.history {
        Some(list) => Some(to_messages(list)),
        None => None,
    };
    Question { selection, user_input: req.user_input, history }
}

/// The text of a message, if it has one.
pub open spec fn message_texts(message: MessageView) -> Seq<Seq<char>> {
    match message {
        MessageView::System(text) => seq![text],
        MessageView::Assistant(Some(text)) => seq![text],
        MessageView::Assistant(None) => Seq::empty(),
        MessageView::User(text) => seq![text],
    }
}

/// The texts of some messages, in their order.
pub open spec fn history_texts(messages: Seq<MessageView>) -> Seq<Seq<char>>
    decreases messages.len(),
{
    if messages.len() == 0 {
        Seq::empty()
    } else {
        history_texts(messages.drop_last()) + message_texts(messages.last())
    }
}

/// The texts of a question before its history: the passage, if there is one, and what the user
/// asks.
pub open spec fn lead_texts(question: QuestionView) -> Seq<Seq<char>> {
    (match question.selection {
        Some(text) => seq![text],
        None => Seq::empty(),
    }) + seq![question.user_input]
}

/// The texts of a question.
pub open spec fn question_texts(question: QuestionView) -> Seq<Seq<char>> {
    lead_texts(question) + (match question.history {
        Some(messages) => history_texts(messages),
        None => Seq::empty(),
    })
}

/// Whether two messages are of the same role, both with a text or both without.
pub open spec fn is_like(a: MessageView, b: MessageView) -> bool {
    match (a, b) {
        (MessageView::System(_), MessageView::System(_)) => true,
        (MessageView::Assistant(s), MessageView::Assistant(t)) => s is Some == t is Some,
        (MessageView::User(_), MessageView::User(_)) => true,
        _ => false,
    }
}

/// Whether some messages are like others, one for one.
pub open spec fn are_like(a: Seq<MessageView>, b: Seq<MessageView>) -> bool {
    a.len() == b.len() && forall|i: int| 0 <= i < a.len() ==> is_like(#[trigger] a[i], b[i])
}

/// Whether two questions differ in their texts only.
pub open spec fn is_question_like(a: QuestionView, b: QuestionView) -> bool {
    &&& a.selection is Some == b.selection is Some
    &&& match (a.history, b.history) {
        (Some(x), Some(y)) => are_like(x, y),
        (None, None) => true,
        _ => false,
    }
}

/// The texts of a question, in the order in which they go to the vault.
pub fn outgoing_question(question: &Question) -> (list: Vec<String>)
    ensures
        crate::text::texts(list@) == question_texts(question@),
{
    let mut list: Vec<String> = Vec::new();
    if let Some(text) = &question.selection {
        push_copy(&mut list, text);
    }
    push_copy(&mut list, &question.user_input);
    let ghost lead = lead_texts(question@);
    assert(crate::text::texts(list@) == lead);
    if let Some(history) = &question.history {
        let ghost all = message_views(history@);
        let mut i: usize = 0;
        assert(lead + history_texts(all.take(0)) == lead);
        while i < history.len()
            invariant
                i <= history.len(),
                all == message_views(history@),
                crate::text::texts(list@) == lead + history_texts(all.take(i as int)),
            decreases history.len() - i,
        {
            assert(all.take(i + 1).drop_last() == all.take(i as int));
            assert(all.take(i + 1).last() == history@[i as int]@);
            match &history[i] {
                ChatMessage::System(text) => {
                    push_copy(&mut list, text);
                },
                ChatMessage::Assistant(content) => {
                    if let Some(text) = content {
                        push_copy(&mut list, text);
                    }
                },
                ChatMessage::User(text) => {
                    push_copy(&mut list, text);
                },
            }
            assert(crate::text::texts(list@) == lead + history_texts(all.take(i + 1)));
            i = i + 1;
        }
        assert(all.take(i as int) == all);
    }
    assert(crate::text::texts(list@) == question_texts(question@));
    list
}

/// Some messages have no more texts than all.
proof fn lemma_no_more_messages(messages: Seq<MessageView>, i: int)
    requires
        0 <= i <= messages.len(),
    ensures
        history_texts(messages.take(i)).len() <= history_texts(messages).len(),
    decreases messages.len() - i,
{
    if i < messages.len() {
        assert(messages.take(i + 1).drop_last() == messages.take(i));
        lemma_no_more_messages(messages, i + 1);
    } else {
        assert(messages.take(i) == messages);
    }
}

/// The messages with other texts, those from a place of a list on.
fn replace_messages(messages: Vec<ChatMessage>, redacted: &Vec<String>, start: usize) -> (replaced:
    Vec<ChatMessage>)
    requires
        redacted@.len() == start + history_texts(message_views(messages@)).len(),
    ensures
        are_like(message_views(replaced@), message_views(messages@)),
        history_texts(message_views(replaced@)) == crate::text::texts(redacted@).skip(
            start as int,
        ),
{
    let ghost given = crate::text::texts(redacted@);
    let ghost all = message_views(messages@);
    let mut replaced: Vec<ChatMessage> = Vec::new();
    let mut next: usize = start;
    let mut i: usize = 0;
    assert(history_texts(message_views(replaced@)) == given.subrange(start as int, next as int));
    while i < messages.len()
        invariant
            i <= messages.len(),
            given == crate::text::texts(redacted@),
            all == message_views(messages@),
            redacted@.len() == start + history_texts(all).len(),
            next == start + history_texts(all.take(i as int)).len(),
            next <= redacted@.len(),
            are_like(message_views(replaced@), all.take(i as int)),
            history_texts(message_views(replaced@)) == given.subrange(start as int, next as int),
        decreases messages.len() - i,
    {
        let ghost from = next as int;
        proof {
            lemma_no_more_messages(all, i + 1);
            assert(all.take(i + 1).drop_last() == all.take(i as int));
            assert(all.take(i + 1).last() == messages@[i as int]@);
        }
        let has_text = match &messages[i] {
            ChatMessage::Assistant(None) => false,
            _ => true,
        };
        let text = if has_text {
            assert(next < redacted.len());
            let text = redacted[next].clone();
            next = next + 1;
            text
        } else {
            String::new()
        };
        let message = match &messages[i] {
            ChatMessage::System(_) => ChatMessage::System(text),
            ChatMessage::Assistant(None) => ChatMessage::Assistant(None),
            ChatMessage::Assistant(Some(_)) => ChatMessage::Assistant(Some(text)),
            ChatMessage::User(_) => ChatMessage::User(text),
        };
        let ghost before = message_views(replaced@);
        replaced.push(message);
        proof {
            let now = message_views(replaced@);
            assert(now == before.push(message@));
            assert(now.drop_last() == before);
            assert(message_texts(message@) == given.subrange(from, next as int));
            assert(given.subrange(start as int, next as int) == given.subrange(start as int, from)
                + given.subrange(from, next as int));
            assert forall|j: int| 0 <= j < now.len() implies is_like(
                #[trigger] now[j],
                all.take(i + 1)[j],
            ) by {
                if j < i {
                    assert(is_like(before[j], all.take(i as int)[j]));
                }
            }
        }
        i = i + 1;
    }
    assert(all.take(i as int) == all);
    assert(given.subrange(start as int, next as int) == given.skip(start as int));
    replaced
}

/// A question as a model may see it: in place of each text stands what the vault gave for it, in
/// the order of `outgoing_question`.
pub fn redacted_question(question: Question, redacted: &Vec<String>) -> (seen: Question)
    requires
        redacted@.len() == question_texts(question@).len(),
    ensures
        is_question_like(seen@, question@),
        question_texts(seen@) == crate::text::texts(redacted@),
{
    let ghost given = crate::text::texts(redacted@);
    let mut next: usize = 0;
    let selection = match &question.selection {
        Some(_) => {
            next = 1;
            Some(redacted[0].clone())
        },
        None => None,
    };
    let user_input = redacted[next].clone();
    next = next + 1;
    let history = match question.history {
        Some(messages) => Some(replace_messages(messages, redacted, next)),
        None => None,
    };
    let seen = Question { selection, user_input, history };
    assert(lead_texts(seen@) == given.take(next as int));
    assert(given.take(next as int) + given.skip(next as int) == given);
    assert(question_texts(seen@) == given);
    seen
}

// ── Laws ──

/// Each piece gets what the vault gave for its own texts.
pub proof fn each_piece_gets_its_own_texts(chunks: Seq<Chunk>, copies: Seq<Chunk>, i: int)
    requires
        are_copies_of(copies, chunks),
        0 <= i < chunks.len(),
    ensures
        all_chunk_texts(copies).len() == all_chunk_texts(chunks).len(),
        chunk_texts(copies[i]) == all_chunk_texts(copies).subrange(
            all_chunk_texts(chunks.take(i)).len() as int,
            all_chunk_texts(chunks.take(i + 1)).len() as int,
        ),
    decreases chunks.len(),
{
    let n = chunks.len() - 1;
    let (fewer, kept) = (chunks.drop_last(), copies.drop_last());
    assert(are_copies_of(kept, fewer)) by {
        assert forall|k: int| 0 <= k < kept.len() implies is_copy_of(
            #[trigger] kept[k],
            fewer[k],
        ) by {
            assert(is_copy_of(copies[k], chunks[k]));
        }
    }
    assert(is_copy_of(copies[n], chunks[n]));
    if n > 0 {
        let k = if i < n {
            i
        } else {
            n - 1
        };
        each_piece_gets_its_own_texts(fewer, kept, k);
    }
    let rest = all_chunk_texts(kept);
    if i < n {
        assert(fewer.take(i) == chunks.take(i));
        assert(fewer.take(i + 1) == chunks.take(i + 1));
        lemma_no_more_texts(fewer, i);
        lemma_no_more_texts(fewer, i + 1);
        lemma_no_more_texts(chunks.take(i + 1), i);
        assert(chunks.take(i + 1).take(i) == chunks.take(i));
        assert(all_chunk_texts(copies).subrange(
            all_chunk_texts(chunks.take(i)).len() as int,
            all_chunk_texts(chunks.take(i + 1)).len() as int,
        ) == rest.subrange(
            all_chunk_texts(chunks.take(i)).len() as int,
            all_chunk_texts(chunks.take(i + 1)).len() as int,
        ));
    } else {
        assert(chunks.take(i) == fewer);
        assert(chunks.take(i + 1) == chunks);
        assert(all_chunk_texts(copies).subrange(
            rest.len() as int,
            all_chunk_texts(copies).len() as int,
        ) == chunk_texts(copies[i]));
    }
}

/// A vault that takes nothing out leaves the pieces as they are.
pub proof fn without_redaction_the_pieces_stay(chunks: Seq<Chunk>, copies: Seq<Chunk>, i: int)
    requires
        are_copies_of(copies, chunks),
        all_chunk_texts(copies) == all_chunk_texts(chunks),
        0 <= i < chunks.len(),
    ensures
        copies[i].chunk_id@ == chunks[i].chunk_id@,
        copies[i].text@ == chunks[i].text@,
        crate::text::texts(copies[i].section_path@) == crate::text::texts(
            chunks[i].section_path@,
        ),
{
    assert(are_copies_of(chunks, chunks));
    each_piece_gets_its_own_texts(chunks, copies, i);
    each_piece_gets_its_own_texts(chunks, chunks, i);
    let (a, b) = (chunk_texts(copies[i]), chunk_texts(chunks[i]));
    assert(a == b);
    assert(is_copy_of(copies[i], chunks[i]));
    assert(a[0] == b[0]);
    assert(a.drop_first() == crate::text::texts(copies[i].section_path@));
    assert(b.drop_first() == crate::text::texts(chunks[i].section_path@));
}

/// The texts that a model sees are collected piece by piece: of each its text, and then all parts of
/// its section path.
pub proof fn texts_are_collected_piece_by_piece(a: Seq<Chunk>, b: Seq<Chunk>, i: int)
    ensures
        all_chunk_texts(a + b) == all_chunk_texts(a) + all_chunk_texts(b),
        a.len() == 0 ==> all_chunk_texts(a).len() == 0,
        a.len() == 1 ==> all_chunk_texts(a).len() as int == 1 + a[0].section_path@.len() as int,
        a.len() == 1 ==> all_chunk_texts(a)[0] == a[0].text@,
        a.len() == 1 && 0 <= i < a[0].section_path@.len() ==> all_chunk_texts(a)[1 + i]
            == a[0].section_path@[i]@,
    decreases b.len(),
{
    if b.len() == 0 {
        assert(a + b =~= a);
        assert(all_chunk_texts(a) + all_chunk_texts(b) =~= all_chunk_texts(a));
    } else {
        assert((a + b).drop_last() =~= a + b.drop_last());
        assert((a + b).last() == b.last());
        texts_are_collected_piece_by_piece(a, b.drop_last(), i);
        assert(all_chunk_texts(a) + all_chunk_texts(b.drop_last()) + chunk_texts(b.last())
            =~= all_chunk_texts(a) + (all_chunk_texts(b.drop_last()) + chunk_texts(b.last())));
    }
    if a.len() == 1 {
        assert(a.drop_last() =~= Seq::<Chunk>::empty());
        assert(all_chunk_texts(a.drop_last()) =~= Seq::<Seq<char>>::empty());
        assert(all_chunk_texts(a) =~= chunk_texts(a[0]));
    }
}

/// No text of a piece that a model sees is passed over: it goes to the vault.
pub proof fn every_text_goes_to_the_vault(chunks: Seq<Chunk>, i: int, k: int)
    requires
        0 <= i < chunks.len(),
    ensures
        all_chunk_texts(chunks).contains(chunks[i].text@),
        0 <= k < chunks[i].section_path@.len() ==> all_chunk_texts(chunks).contains(
            chunks[i].section_path@[k]@,
        ),
{
    let (before, here, after) = (chunks.take(i), seq![chunks[i]], chunks.skip(i + 1));
    assert(chunks =~= before + here + after);
    texts_are_collected_piece_by_piece(before + here, after, k);
    texts_are_collected_piece_by_piece(before, here, k);
    texts_are_collected_piece_by_piece(here, after, k);
    let n = all_chunk_texts(before).len();
    assert(all_chunk_texts(chunks)[n as int] == chunks[i].text@);
    if 0 <= k < chunks[i].section_path@.len() {
        assert(all_chunk_texts(chunks)[n + 1 + k] == chunks[i].section_path@[k]@);
    }
}

/// A copy keeps the id, the page and the blocks of its piece, and the length of its path.
pub proof fn a_copy_keeps_what_a_model_does_not_see(copies: Seq<Chunk>, chunks: Seq<Chunk>, i: int, k: int)
    requires
        are_copies_of(copies, chunks),
        0 <= i < chunks.len(),
    ensures
        copies.len() == chunks.len(),
        copies[i].chunk_id@ == chunks[i].chunk_id@,
        copies[i].page_start == chunks[i].page_start,
        copies[i].section_path@.len() == chunks[i].section_path@.len(),
        copies[i].source_block_ids@.len() == chunks[i].source_block_ids@.len(),
        0 <= k < chunks[i].source_block_ids@.len() ==> copies[i].source_block_ids@[k]@
            == chunks[i].source_block_ids@[k]@,
{
    assert(is_copy_of(copies[i], chunks[i]));
    let own = crate::text::texts(copies[i].source_block_ids@);
    let theirs = crate::text::texts(chunks[i].source_block_ids@);
    assert(own.len() == theirs.len());
    if 0 <= k < chunks[i].source_block_ids@.len() {
        assert(own[k] == copies[i].source_block_ids@[k]@);
        assert(theirs[k] == chunks[i].source_block_ids@[k]@);
    }
}

/// A question has the passage that the client marked, what the client asks, and every message of
/// the history in its place.
pub proof fn a_question_is_what_the_client_asks(req: ChatRequest, i: int)
    ensures
        question_of(req).user_input == req.user_input@,
        req.selection is None ==> question_of(req).selection is None,
        req.selection matches Some(passage) ==> question_of(req).selection == Some(passage.text@),
        req.history is None ==> question_of(req).history is None,
        req.history matches Some(list) ==> {
            &&& question_of(req).history is Some
            &&& question_of(req).history->0.len() == list@.len()
            &&& 0 <= i < list@.len() ==> question_of(req).history->0[i] == crate::chat::message_of(
                list@[i],
            )
        },
{
}

/// The texts of a history are collected message by message, whatever the role.
pub proof fn texts_are_collected_message_by_message(
    a: Seq<MessageView>,
    b: Seq<MessageView>,
    text: Seq<char>,
)
    ensures
        history_texts(a + b) == history_texts(a) + history_texts(b),
        history_texts(Seq::empty()).len() == 0,
        history_texts(seq![MessageView::System(text)]) == seq![text],
        history_texts(seq![MessageView::User(text)]) == seq![text],
        history_texts(seq![MessageView::Assistant(Some(text))]) == seq![text],
        history_texts(seq![MessageView::Assistant(None)]).len() == 0,
    decreases b.len(),
{
    if b.len() == 0 {
        assert(a + b =~= a);
        assert(history_texts(a) + history_texts(b) =~= history_texts(a));
    } else {
        assert((a + b).drop_last() =~= a + b.drop_last());
        assert((a + b).last() == b.last());
        texts_are_collected_message_by_message(a, b.drop_last(), text);
        assert(history_texts(a) + history_texts(b.drop_last()) + message_texts(b.last())
            =~= history_texts(a) + (history_texts(b.drop_last()) + message_texts(b.last())));
    }
    lemma_one_message(MessageView::System(text));
    lemma_one_message(MessageView::User(text));
    lemma_one_message(MessageView::Assistant(Some(text)));
    lemma_one_message(MessageView::Assistant(None));
}

/// The texts of a history of one message.
proof fn lemma_one_message(message: MessageView)
    ensures
        history_texts(seq![message]) == message_texts(message),
{
    let one = seq![message];
    assert(one.drop_last() =~= Seq::<MessageView>::empty());
    assert(history_texts(one.drop_last()) =~= Seq::<Seq<char>>::empty());
    assert(history_texts(one) =~= message_texts(message));
}

/// The texts of a question go to the vault in one order: the passage, what the user asks, and then
/// the history.
pub proof fn the_texts_of_a_question_have_their_order(
    selection: Seq<char>,
    user_input: Seq<char>,
    history: Seq<MessageView>,
)
    ensures
        question_texts(QuestionView { selection: None, user_input, history: None }) == seq![
            user_input,
        ],
        question_texts(QuestionView { selection: Some(selection), user_input, history: None })
            == seq![selection, user_input],
        question_texts(QuestionView { selection: None, user_input, history: Some(history) })
            == seq![user_input] + history_texts(history),
        question_texts(
            QuestionView { selection: Some(selection), user_input, history: Some(history) },
        ) == seq![selection, user_input] + history_texts(history),
{
    let none = Seq::<Seq<char>>::empty();
    assert(none + seq![user_input] + none =~= seq![user_input]);
    assert(seq![selection] + seq![user_input] + none =~= seq![selection, user_input]);
    assert(none + seq![user_input] + history_texts(history) =~= seq![user_input] + history_texts(
        history,
    ));
    assert(seq![selection] + seq![user_input] + history_texts(history) =~= seq![
        selection,
        user_input,
    ] + history_texts(history));
}

/// Messages that are alike and have the same texts are the same.
proof fn lemma_same_history(a: Seq<MessageView>, b: Seq<MessageView>)
    requires
        are_like(a, b),
    ensures
        history_texts(a).len() == history_texts(b).len(),
        history_texts(a) == history_texts(b) ==> a == b,
    decreases a.len(),
{
    if a.len() > 0 {
        let (x, y) = (a.drop_last(), b.drop_last());
        assert(is_like(a[a.len() - 1], b[b.len() - 1]));
        assert forall|i: int| 0 <= i < x.len() implies is_like(#[trigger] x[i], y[i]) by {
            assert(is_like(a[i], b[i]));
        }
        lemma_same_history(x, y);
        if history_texts(a) == history_texts(b) {
            let n = history_texts(x).len() as int;
            assert(history_texts(a).take(n) =~= history_texts(x));
            assert(history_texts(b).take(n) =~= history_texts(y));
            assert(history_texts(a).skip(n) =~= message_texts(a.last()));
            assert(history_texts(b).skip(n) =~= message_texts(b.last()));
            assert(message_texts(a.last()) == message_texts(b.last()));
            if message_texts(a.last()).len() > 0 {
                assert(message_texts(a.last())[0] == message_texts(b.last())[0]);
            }
            assert(a.last() == b.last());
            assert(a =~= x.push(a.last()));
            assert(b =~= y.push(b.last()));
        }
    } else {
        assert(a =~= b);
    }
}

/// A question that differs from another in its texts only, and has the same texts, is the same: a
/// vault that takes nothing out leaves it as it is.
pub proof fn without_redaction_the_question_stays(seen: QuestionView, question: QuestionView)
    requires
        is_question_like(seen, question),
        question_texts(seen) == question_texts(question),
    ensures
        seen == question,
{
    let (a, b) = (question_texts(seen), question_texts(question));
    let none = Seq::<MessageView>::empty();
    let x = match seen.history {
        Some(list) => list,
        None => none,
    };
    let y = match question.history {
        Some(list) => list,
        None => none,
    };
    assert(are_like(x, y));
    lemma_same_history(x, y);
    let n = lead_texts(seen).len() as int;
    assert(a.skip(n) =~= history_texts(x));
    assert(b.skip(n) =~= history_texts(y));
    assert(a.take(n) =~= lead_texts(seen));
    assert(b.take(n) =~= lead_texts(question));
    assert(lead_texts(seen)[n - 1] == seen.user_input);
    assert(lead_texts(question)[n - 1] == question.user_input);
    if seen.selection is Some {
        assert(lead_texts(seen)[0] == seen.selection->0);
        assert(lead_texts(question)[0] == question.selection->0);
    }
}

/// A question as a model sees it has its history in the same roles, one for one.
pub proof fn a_redacted_question_keeps_its_roles(
    seen: QuestionView,
    question: QuestionView,
    i: int,
)
    requires
        is_question_like(seen, question),
    ensures
        seen.selection is Some <==> question.selection is Some,
        seen.history is Some <==> question.history is Some,
        seen.history is Some ==> seen.history->0.len() == question.history->0.len(),
        seen.history is Some && 0 <= i < seen.history->0.len() ==> {
            let (a, b) = (seen.history->0[i], question.history->0[i]);
            &&& a is System <==> b is System
            &&& a is User <==> b is User
            &&& a is Assistant <==> b is Assistant
            &&& a == MessageView::Assistant(None) <==> b == MessageView::Assistant(None)
        },
{
    if seen.history is Some && 0 <= i < seen.history->0.len() {
        assert(is_like(seen.history->0[i], question.history->0[i]));
    }
}

/// A question is modelled by its passage, by what is asked, and by its messages one by one.
pub proof fn a_question_is_its_texts(question: Question, i: int)
    ensures
        question@.user_input == question.user_input@,
        question.selection is None <==> question@.selection is None,
        question.selection matches Some(s) ==> question@.selection == Some(s@),
        question.history is None <==> question@.history is None,
        question.history matches Some(list) ==> {
            &&& question@.history->0.len() == list@.len()
            &&& 0 <= i < list@.len() ==> question@.history->0[i] == list@[i]@
        },
{
}

} // verus!
