//! What the service answers: errors, names of files, and what it says of a document.

use crate::number::parse_unsigned;
use crate::sections::{RawPage, Section};
use crate::text::same_text;
use vstd::prelude::*;

verus! {

// ── Errors ──

/// The body of an error.
#[derive(Debug)]
pub struct ErrorResponse {
    pub error: String,
    pub detail: String,
}

/// The request was malformed.
pub const BAD_REQUEST: u16 = 400;

/// What was asked for is not there.
pub const NOT_FOUND: u16 = 404;

/// The request cannot be met now.
pub const CONFLICT: u16 = 409;

/// The request was taken on.
pub const ACCEPTED: u16 = 202;

/// The service failed.
pub const SERVER_ERROR: u16 = 500;

/// Whether an answer is an error with a status, a name and a detail.
pub open spec fn is_error(
    answer: (u16, ErrorResponse),
    status: u16,
    error: Seq<char>,
    detail: Seq<char>,
) -> bool {
    answer.0 == status && answer.1.error@ == error && answer.1.detail@ == detail
}

/// The answer to a malformed request.
pub fn bad_request(msg: &str) -> (answer: (u16, ErrorResponse))
    ensures
        is_error(answer, BAD_REQUEST, "BAD_REQUEST"@, msg@),
{
    (BAD_REQUEST, ErrorResponse { error: "BAD_REQUEST".to_owned(), detail: msg.to_owned() })
}

/// The answer where something is not there.
pub fn not_found(msg: &str) -> (answer: (u16, ErrorResponse))
    ensures
        is_error(answer, NOT_FOUND, "NOT_FOUND"@, msg@),
{
    (NOT_FOUND, ErrorResponse { error: "NOT_FOUND".to_owned(), detail: msg.to_owned() })
}

/// The answer where a step failed, with the reason in words.
pub fn server_error(msg: &str, reason: &str) -> (answer: (u16, ErrorResponse))
    ensures
        is_error(answer, SERVER_ERROR, msg@, msg@ + ": "@ + reason@),
{
    let mut detail = msg.to_owned();
    detail.append(": ");
    detail.append(reason);
    (SERVER_ERROR, ErrorResponse { error: msg.to_owned(), detail })
}

/// The answer where a step failed without a reason.
pub fn server_error_fmt(msg: &str) -> (answer: (u16, ErrorResponse))
    ensures
        is_error(answer, SERVER_ERROR, msg@, msg@),
{
    (SERVER_ERROR, ErrorResponse { error: msg.to_owned(), detail: msg.to_owned() })
}

/// The answer where a document is not there.
pub fn document_missing(doc_id: &str) -> (answer: (u16, ErrorResponse))
    ensures
        is_error(answer, NOT_FOUND, "NOT_FOUND"@, "文档不存在: "@ + doc_id@),
{
    let mut msg = "文档不存在: ".to_owned();
    msg.append(doc_id);
    not_found(msg.as_str())
}

// ── Settings ──

/// The event capacity that a setting asks for, within its bounds.
pub open spec fn capacity_of(setting: Option<Seq<char>>) -> nat {
    let wanted = match setting {
        Some(text) => match crate::number::unsigned_literal(text) {
            Some(n) => if n <= usize::MAX {
                n
            } else {
                4096
            },
            None => 4096,
        },
        None => 4096,
    };
    if wanted < 256 {
        256
    } else if wanted > 32768 {
        32768
    } else {
        wanted
    }
}

/// How many events of a review are kept for slow clients.
pub fn review_event_capacity(setting: Option<&str>) -> (capacity: usize)
    ensures
        capacity == capacity_of(
            match setting {
                Some(s) => Some(s@),
                None => None,
            },
        ),
{
    let wanted: u64 = match setting {
        Some(text) => match parse_unsigned(text, usize::MAX as u64) {
            Some(n) => n,
            None => 4096,
        },
        None => 4096,
    };
    if wanted < 256 {
        256
    } else if wanted > 32768 {
        32768
    } else {
        wanted as usize
    }
}

/// What the service is set up with.
#[derive(Debug, Clone)]
pub struct Settings {
    pub embed_engine: String,
    pub search_backend: String,
}

impl Settings {
    /// The settings, with a default for each that is missing.
    pub fn new(embed_engine: Option<String>, search_backend: Option<String>) -> (settings: Settings)
        ensures
            settings.embed_engine@ == (match embed_engine {
                Some(s) => s@,
                None => "local"@,
            }),
            settings.search_backend@ == (match search_backend {
                Some(s) => s@,
                None => "dashscope"@,
            }),
    {
        Settings {
            embed_engine: match embed_engine {
                Some(s) => s,
                None => "local".to_owned(),
            },
            search_backend: match search_backend {
                Some(s) => s,
                None => "dashscope".to_owned(),
            },
        }
    }

    /// Whether vectors are made by a remote service.
    pub fn embeds_remotely(&self) -> (hit: bool)
        ensures
            hit == (self.embed_engine@ == "remote"@),
    {
        same_text(self.embed_engine.as_str(), "remote")
    }

    /// Whether the backend that searches the web is the one that the service has a client for.
    pub fn has_search_client(&self) -> (hit: bool)
        ensures
            hit == (self.search_backend@ == "dashscope"@),
    {
        same_text(self.search_backend.as_str(), "dashscope")
    }
}

/// The name of the model that a review is recorded with: the setting of its provider, or else the
/// general one, or else a default.
pub fn model_name(provider: Option<String>, general: Option<String>) -> (name: String)
    ensures
        name@ == (match (provider, general) {
            (Some(s), _) => s@,
            (None, Some(s)) => s@,
            (None, None) => "qwen-plus"@,
        }),
{
    match provider {
        Some(s) => s,
        None => match general {
            Some(s) => s,
            None => "qwen-plus".to_owned(),
        },
    }
}

// ── Names ──

/// The bytes of an id that go into a file name.
pub open spec fn short_len(id: Seq<char>) -> int {
    let size = vstd::utf8::encode_utf8(id).len() as int;
    if size < 8 {
        size
    } else {
        8
    }
}

/// The beginning of an id: its first eight bytes, or all of a shorter one.
pub open spec fn short_id(id: Seq<char>) -> Seq<char> {
    vstd::utf8::decode_utf8(vstd::utf8::encode_utf8(id).subrange(0, short_len(id)))
}

/// Whether the beginning of an id ends between two characters.
pub open spec fn can_be_cut(id: Seq<char>) -> bool {
    vstd::utf8::is_char_boundary(vstd::utf8::encode_utf8(id), short_len(id))
}

/// The byte offset at which an id is cut.
fn cut_place(id: &str) -> (place: usize)
    ensures
        place == short_len(id@),
{
    let size = id.as_bytes().len();
    if size < 8 {
        size
    } else {
        8
    }
}

/// Whether the beginning of an id ends between two characters.
pub fn id_can_be_cut(id: &str) -> (hit: bool)
    ensures
        hit == can_be_cut(id@),
{
    id.is_char_boundary(cut_place(id))
}

/// The name under which the results for a document are kept: the stem of its file name, or
/// another name where there is none, and the beginning of its id.
pub fn disk_stem(file_stem: Option<&str>, other: &str, id: &str) -> (stem: String)
    requires
        can_be_cut(id@),
    ensures
        stem@ == (match file_stem {
            Some(s) => s@,
            None => other@,
        }) + "_"@ + short_id(id@),
{
    let mut stem = match file_stem {
        Some(s) => s.to_owned(),
        None => other.to_owned(),
    };
    let parts = id.split_at(cut_place(id));
    proof {
        vstd::utf8::encode_utf8_decode_utf8(parts.0@);
    }
    stem.append("_");
    stem.append(parts.0);
    stem
}

/// Whether a file has to be converted before it can be read.
pub fn needs_conversion(extension: &str) -> (hit: bool)
    ensures
        hit == (extension@ == "docx"@ || extension@ == "doc"@),
{
    same_text(extension, "docx") || same_text(extension, "doc")
}

// ── Documents ──

/// A piece of a document that is reviewed as one.
#[derive(Debug)]
pub struct Chunk {
    pub chunk_id: String,
    pub page_start: usize,
    pub section_path: Vec<String>,
    pub text: String,
    pub source_block_ids: Vec<String>,
}

/// A document that has been read.
#[derive(Debug)]
pub struct DocumentState {
    pub id: String,
    pub filename: String,
    pub stem: String,
    pub pages: Vec<RawPage>,
    pub sections: Vec<Section>,
    pub chunks: Vec<Chunk>,
    /// The pieces as a remote model may see them.
    pub review_chunks: Vec<Chunk>,
    pub vector_count: usize,
    pub desensitization_mode: String,
    pub desensitized_items: usize,
}

/// What the service says of a document.
#[derive(Debug)]
pub struct DocumentInfo {
    pub document_id: String,
    pub filename: String,
    pub total_pages: usize,
    pub total_chunks: usize,
    pub vector_count: usize,
    pub desensitization_mode: String,
    pub desensitized_items: usize,
}

/// What the service says of a document.
pub fn document_info(doc: &DocumentState) -> (info: DocumentInfo)
    ensures
        info.document_id@ == doc.id@,
        info.filename@ == doc.filename@,
        info.total_pages == doc.pages@.len(),
        info.total_chunks == doc.chunks@.len(),
        info.vector_count == doc.vector_count,
        info.desensitization_mode@ == doc.desensitization_mode@,
        info.desensitized_items == doc.desensitized_items,
{
    DocumentInfo {
        document_id: doc.id.clone(),
        filename: doc.filename.clone(),
        total_pages: doc.pages.len(),
        total_chunks: doc.chunks.len(),
        vector_count: doc.vector_count,
        desensitization_mode: doc.desensitization_mode.clone(),
        desensitized_items: doc.desensitized_items,
    }
}

/// How many blocks some pages have.
pub open spec fn block_count(pages: Seq<RawPage>) -> nat
    decreases pages.len(),
{
    if pages.len() == 0 {
        0
    } else {
        block_count(pages.drop_last()) + pages.last().blocks@.len()
    }
}

/// How many bytes of text some pieces have.
pub open spec fn text_size(chunks: Seq<Chunk>) -> nat
    decreases chunks.len(),
{
    if chunks.len() == 0 {
        0
    } else {
        text_size(chunks.drop_last()) + vstd::utf8::encode_utf8(chunks.last().text@).len()
    }
}

/// Some pages have no more blocks than all.
proof fn lemma_block_count(pages: Seq<RawPage>, i: int)
    requires
        0 <= i <= pages.len(),
    ensures
        block_count(pages.take(i)) <= block_count(pages),
    decreases pages.len() - i,
{
    if i < pages.len() {
        assert(pages.take(i + 1).drop_last() == pages.take(i));
        lemma_block_count(pages, i + 1);
    } else {
        assert(pages.take(i) == pages);
    }
}

/// How many blocks some pages have.
pub fn count_blocks(pages: &Vec<RawPage>) -> (count: usize)
    requires
        block_count(pages@) <= usize::MAX,
    ensures
        count == block_count(pages@),
{
    let mut count: usize = 0;
    let mut i: usize = 0;
    while i < pages.len()
        invariant
            i <= pages.len(),
            block_count(pages@) <= usize::MAX,
            count == block_count(pages@.take(i as int)),
        decreases pages.len() - i,
    {
        proof {
            lemma_block_count(pages@, i + 1);
            assert(pages@.take(i + 1).drop_last() == pages@.take(i as int));
            assert(pages@.take(i + 1).last() == pages@[i as int]);
        }
        count = count + pages[i].blocks.len();
        i = i + 1;
    }
    assert(pages@.take(i as int) == pages@);
    count
}

/// Some pieces have no more text than all.
proof fn lemma_text_size(chunks: Seq<Chunk>, i: int)
    requires
        0 <= i <= chunks.len(),
    ensures
        text_size(chunks.take(i)) <= text_size(chunks),
    decreases chunks.len() - i,
{
    if i < chunks.len() {
        assert(chunks.take(i + 1).drop_last() == chunks.take(i));
        lemma_text_size(chunks, i + 1);
    } else {
        assert(chunks.take(i) == chunks);
    }
}

/// How many bytes of text some pieces have.
pub fn total_size(chunks: &Vec<Chunk>) -> (size: usize)
    requires
        text_size(chunks@) <= usize::MAX,
    ensures
        size == text_size(chunks@),
{
    let mut size: usize = 0;
    let mut i: usize = 0;
    while i < chunks.len()
        invariant
            i <= chunks.len(),
            text_size(chunks@) <= usize::MAX,
            size == text_size(chunks@.take(i as int)),
        decreases chunks.len() - i,
    {
        proof {
            lemma_text_size(chunks@, i + 1);
            assert(chunks@.take(i + 1).drop_last() == chunks@.take(i as int));
            assert(chunks@.take(i + 1).last() == chunks@[i as int]);
        }
        size = size + chunks[i].text.as_str().len();
        i = i + 1;
    }
    assert(chunks@.take(i as int) == chunks@);
    size
}

// ── Laws ──

/// Of an id in ASCII, such as a UUID, the first eight characters are kept, and it can be cut.
pub proof fn an_ascii_id_keeps_eight_characters(id: Seq<char>)
    requires
        vstd::utf8::is_ascii_chars(id),
    ensures
        can_be_cut(id),
        short_id(id) == crate::text::first_chars(id, 8),
{
    let short = crate::text::first_chars(id, 8);
    assert(vstd::utf8::is_ascii_chars(short)) by {
        assert forall|i: int| 0 <= i < short.len() implies short[i] == id[i] by {}
    }
    vstd::utf8::is_ascii_chars_encode_utf8(id);
    vstd::utf8::is_ascii_chars_encode_utf8(short);
    let bytes = vstd::utf8::encode_utf8(id);
    assert(bytes.subrange(0, short_len(id)) == vstd::utf8::encode_utf8(short));
    vstd::utf8::encode_utf8_decode_utf8(short);
    vstd::utf8::encode_utf8_valid_utf8(id);
    vstd::utf8::is_char_boundary_start_end_of_seq(bytes);
    if short_len(id) < bytes.len() {
        vstd::utf8::is_char_boundary_iff_not_is_continuation_byte(bytes, short_len(id));
    }
}

/// The event capacity is within its bounds whatever the setting says.
pub proof fn the_capacity_is_bounded(setting: Option<Seq<char>>)
    ensures
        256 <= capacity_of(setting) <= 32768,
{
}

/// An answer is an error exactly if its status, its name and its detail are the ones asked about.
pub proof fn an_error_is_its_status_name_and_detail(
    answer: (u16, ErrorResponse),
    status: u16,
    error: Seq<char>,
    detail: Seq<char>,
)
    ensures
        is_error(answer, answer.0, answer.1.error@, answer.1.detail@),
        is_error(answer, status, error, detail) ==> status == answer.0 && error == answer.1.error@
            && detail == answer.1.detail@,
{
}

/// A setting that is a number within the bounds is what counts; a smaller one counts as the lower
/// bound, a larger one as the upper. Without a number the capacity is the usual one.
pub proof fn a_capacity_within_its_bounds_is_granted(n: nat, text: Seq<char>)
    requires
        n <= usize::MAX,
    ensures
        256 <= n <= 32768 ==> capacity_of(Some(crate::number::decimal_text(n))) == n,
        n < 256 ==> capacity_of(Some(crate::number::decimal_text(n))) == 256,
        n > 32768 ==> capacity_of(Some(crate::number::decimal_text(n))) == 32768,
        crate::number::unsigned_literal(text) is None ==> capacity_of(Some(text)) == 4096,
        capacity_of(None) == 4096,
{
    crate::number::decimal_text_reads_back(n);
}

/// The bytes of two texts behind each other are those of the first and those of the second.
proof fn lemma_bytes_add_up(a: Seq<char>, b: Seq<char>)
    ensures
        vstd::utf8::encode_utf8(a + b) == vstd::utf8::encode_utf8(a) + vstd::utf8::encode_utf8(b),
    decreases a.len(),
{
    if a.len() == 0 {
        assert(a + b =~= b);
        assert(vstd::utf8::encode_utf8(a) + vstd::utf8::encode_utf8(b) =~= vstd::utf8::encode_utf8(
            b,
        ));
    } else {
        assert((a + b)[0] == a[0]);
        assert((a + b).drop_first() =~= a.drop_first() + b);
        lemma_bytes_add_up(a.drop_first(), b);
        assert(vstd::utf8::encode_utf8(a + b) =~= vstd::utf8::encode_utf8(a)
            + vstd::utf8::encode_utf8(b));
    }
}

/// The bytes of a text may be cut behind any of its characters.
proof fn lemma_boundary(a: Seq<char>, b: Seq<char>)
    ensures
        vstd::utf8::is_char_boundary(
            vstd::utf8::encode_utf8(a + b),
            vstd::utf8::encode_utf8(a).len() as int,
        ),
    decreases a.len(),
{
    let bytes = vstd::utf8::encode_utf8(a + b);
    vstd::utf8::encode_utf8_valid_utf8(a + b);
    if a.len() > 0 {
        assert((a + b)[0] == a[0]);
        assert((a + b).drop_first() =~= a.drop_first() + b);
        vstd::utf8::encode_utf8_first_scalar(a + b);
        lemma_boundary(a.drop_first(), b);
        lemma_bytes_add_up(a, b);
        let rest = vstd::utf8::encode_utf8(a.drop_first() + b);
        assert(vstd::utf8::pop_first_scalar(bytes) =~= rest);
    }
}

/// Whatever its characters, an id of at most eight bytes is kept whole; a longer one is kept up to
/// its eighth byte, if a character ends there.
pub proof fn an_id_keeps_eight_bytes(id: Seq<char>, more: Seq<char>)
    ensures
        vstd::utf8::encode_utf8(id).len() <= 8 ==> can_be_cut(id) && short_id(id) == id,
        vstd::utf8::encode_utf8(id).len() == 8 ==> can_be_cut(id + more) && short_id(id + more)
            == id,
{
    let bytes = vstd::utf8::encode_utf8(id);
    vstd::utf8::encode_utf8_decode_utf8(id);
    assert(bytes.subrange(0, bytes.len() as int) =~= bytes);
    lemma_boundary(id, Seq::empty());
    assert(id + Seq::<char>::empty() =~= id);
    if bytes.len() == 8 {
        lemma_bytes_add_up(id, more);
        lemma_boundary(id, more);
        assert(vstd::utf8::encode_utf8(id + more).subrange(0, 8) =~= bytes);
    }
}

/// The blocks of pages add up.
pub proof fn blocks_add_up(a: Seq<RawPage>, b: Seq<RawPage>)
    ensures
        block_count(a + b) == block_count(a) + block_count(b),
        a.len() == 0 ==> block_count(a) == 0,
        a.len() == 1 ==> block_count(a) == a[0].blocks@.len(),
    decreases b.len(),
{
    if b.len() == 0 {
        assert(a + b =~= a);
    } else {
        assert((a + b).drop_last() =~= a + b.drop_last());
        assert((a + b).last() == b.last());
        blocks_add_up(a, b.drop_last());
    }
    if a.len() == 1 {
        assert(a.drop_last() =~= Seq::<RawPage>::empty());
        assert(block_count(a.drop_last()) == 0);
    }
}

/// The sizes of texts add up; the size of one is the number of its bytes, one for each character in
/// ASCII.
pub proof fn sizes_add_up(a: Seq<Chunk>, b: Seq<Chunk>)
    ensures
        text_size(a + b) == text_size(a) + text_size(b),
        a.len() == 0 ==> text_size(a) == 0,
        a.len() == 1 ==> text_size(a) == vstd::utf8::encode_utf8(a[0].text@).len(),
        a.len() == 1 && vstd::utf8::is_ascii_chars(a[0].text@) ==> text_size(a) == a[0].text@.len(),
    decreases b.len(),
{
    if b.len() == 0 {
        assert(a + b =~= a);
    } else {
        assert((a + b).drop_last() =~= a + b.drop_last());
        assert((a + b).last() == b.last());
        sizes_add_up(a, b.drop_last());
    }
    if a.len() == 1 {
        assert(a.drop_last() =~= Seq::<Chunk>::empty());
        assert(text_size(a.drop_last()) == 0);
        if vstd::utf8::is_ascii_chars(a[0].text@) {
            vstd::utf8::is_ascii_chars_encode_utf8(a[0].text@);
        }
    }
}

} // verus!
