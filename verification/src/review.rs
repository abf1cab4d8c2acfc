//! Reviews of documents: which are running, what a review covers, and what comes of it.

use crate::api::{bad_request, not_found, Chunk, ErrorResponse, ACCEPTED, CONFLICT};
use crate::text::{listed, same_text, take_chars};
use vstd::prelude::*;

verus! {

/// What a review is asked to cover.
#[derive(Debug)]
pub struct ReviewRequest {
    /// The pieces to review; all of them where none is named.
    pub chunk_ids: Vec<String>,
    pub max_clauses: Option<usize>,
    pub enabled_agents: Option<Vec<String>>,
}

/// The answer to a request for a review.
#[derive(Debug)]
pub struct ReviewAccepted {
    pub status: String,
    pub document_id: String,
    pub message: String,
}

// ── What a review covers ──

/// Whether a request covers the piece with that id.
pub open spec fn is_requested(req: ReviewRequest, id: Seq<char>) -> bool {
    req.chunk_ids@.len() == 0 || crate::text::texts(req.chunk_ids@).contains(id)
}

/// The places of the pieces that a request covers, among the first `n`.
pub open spec fn requested_places(ids: Seq<Seq<char>>, req: ReviewRequest, n: int) -> Seq<int>
    decreases n,
{
    if n <= 0 {
        Seq::empty()
    } else {
        let before = requested_places(ids, req, n - 1);
        if is_requested(req, ids[n - 1]) {
            before.push(n - 1)
        } else {
            before
        }
    }
}

/// What a request asks of a document with pieces of those ids.
pub enum Scope {
    /// The request names pieces, and the document has none of them.
    NoneOfThese,
    /// The request allows no piece at all.
    NoRoom,
    /// The places of the pieces to review.
    Places(Seq<int>),
}

/// What a request asks of a document with pieces of those ids.
pub open spec fn scope_of(ids: Seq<Seq<char>>, req: ReviewRequest) -> Scope {
    let places = requested_places(ids, req, ids.len() as int);
    if req.chunk_ids@.len() > 0 && places.len() == 0 {
        Scope::NoneOfThese
    } else {
        match req.max_clauses {
            Some(limit) => if limit == 0 {
                Scope::NoRoom
            } else if places.len() <= limit {
                Scope::Places(places)
            } else {
                Scope::Places(places.take(limit as int))
            },
            None => Scope::Places(places),
        }
    }
}

/// The models of a list of places.
pub open spec fn place_numbers(places: Seq<usize>) -> Seq<int> {
    places.map_values(|p: usize| p as int)
}

/// The ids of some pieces.
pub open spec fn chunk_ids(chunks: Seq<Chunk>) -> Seq<Seq<char>> {
    chunks.map_values(|c: Chunk| c.chunk_id@)
}

/// The places of the pieces that a request covers, or the answer to a request that covers none.
pub fn select_chunks(chunks: &Vec<Chunk>, req: &ReviewRequest) -> (selected: Result<
    Vec<usize>,
    (u16, ErrorResponse),
>)
    ensures
        match selected {
            Ok(places) => scope_of(chunk_ids(chunks@), *req) == Scope::Places(
                place_numbers(places@),
            ),
            Err(answer) => match scope_of(chunk_ids(chunks@), *req) {
                Scope::NoneOfThese => crate::api::is_error(
                    answer,
                    crate::api::BAD_REQUEST,
                    "BAD_REQUEST"@,
                    "chunk_ids 未匹配到任何文档条款"@,
                ),
                Scope::NoRoom => crate::api::is_error(
                    answer,
                    crate::api::BAD_REQUEST,
                    "BAD_REQUEST"@,
                    "max_clauses 必须大于 0"@,
                ),
                Scope::Places(_) => false,
            },
        },
{
    let ghost ids = chunk_ids(chunks@);
    let mut places: Vec<usize> = Vec::new();
    let mut i: usize = 0;
    assert(place_numbers(places@) == requested_places(ids, *req, 0));
    while i < chunks.len()
        invariant
            i <= chunks.len(),
            ids == chunk_ids(chunks@),
            place_numbers(places@) == requested_places(ids, *req, i as int),
        decreases chunks.len() - i,
    {
        assert(ids[i as int] == chunks@[i as int].chunk_id@);
        if req.chunk_ids.len() == 0 || listed(&req.chunk_ids, chunks[i].chunk_id.as_str()) {
            let ghost before = places@;
            places.push(i);
            assert(place_numbers(places@) == place_numbers(before).push(i as int));
        }
        i = i + 1;
    }
    assert(place_numbers(places@).len() == places@.len());
    if req.chunk_ids.len() > 0 && places.len() == 0 {
        return Err(bad_request("chunk_ids 未匹配到任何文档条款"));
    }
    if let Some(limit) = req.max_clauses {
        if limit == 0 {
            return Err(bad_request("max_clauses 必须大于 0"));
        }
        if places.len() > limit {
            let ghost before = places@;
            places.truncate(limit);
            assert(place_numbers(places@) == place_numbers(before).take(limit as int));
        }
    }
    Ok(places)
}

// ── Which reviews are running ──

/// The documents whose reviews are running.
pub struct ActiveReviews {
    ids: Vec<String>,
}

/// What a request for a review leads to.
pub enum ReviewStart {
    /// A review of the document is running already.
    Conflict,
    /// The request was refused.
    Refused((u16, ErrorResponse)),
    /// A review of the pieces at these places begins.
    Begun(Vec<usize>),
}

/// Whether a request for a review of a document begins one.
pub open spec fn begins(
    active: Set<Seq<char>>,
    doc_id: Seq<char>,
    ids: Seq<Seq<char>>,
    req: ReviewRequest,
) -> bool {
    !active.contains(doc_id) && scope_of(ids, req) is Places
}

/// The running reviews after a request for a review of a document.
pub open spec fn active_after(
    active: Set<Seq<char>>,
    doc_id: Seq<char>,
    ids: Seq<Seq<char>>,
    req: ReviewRequest,
) -> Set<Seq<char>> {
    if begins(active, doc_id, ids, req) {
        active.insert(doc_id)
    } else {
        active
    }
}

impl ActiveReviews {
    /// The ids of the documents.
    pub closed spec fn view(&self) -> Set<Seq<char>> {
        crate::text::texts(self.ids@).to_set()
    }

    /// No review is running.
    pub fn new() -> (active: ActiveReviews)
        ensures
            active@ == Set::<Seq<char>>::empty(),
    {
        let active = ActiveReviews { ids: Vec::new() };
        assert(active@ =~= Set::<Seq<char>>::empty());
        active
    }

    /// Whether a review of a document is running.
    pub fn is_running(&self, doc_id: &str) -> (hit: bool)
        ensures
            hit == self@.contains(doc_id@),
    {
        listed(&self.ids, doc_id)
    }

    /// Takes on a request for a review of a document. A review that is refused is not running.
    pub fn begin(&mut self, doc_id: &str, chunks: &Vec<Chunk>, req: &ReviewRequest) -> (start:
        ReviewStart)
        ensures
            final(self)@ == active_after(old(self)@, doc_id@, chunk_ids(chunks@), *req),
            match start {
                ReviewStart::Conflict => old(self)@.contains(doc_id@),
                ReviewStart::Refused(answer) => !old(self)@.contains(doc_id@) && (match scope_of(
                    chunk_ids(chunks@),
                    *req,
                ) {
                    Scope::NoneOfThese => crate::api::is_error(
                        answer,
                        crate::api::BAD_REQUEST,
                        "BAD_REQUEST"@,
                        "chunk_ids 未匹配到任何文档条款"@,
                    ),
                    Scope::NoRoom => crate::api::is_error(
                        answer,
                        crate::api::BAD_REQUEST,
                        "BAD_REQUEST"@,
                        "max_clauses 必须大于 0"@,
                    ),
                    Scope::Places(_) => false,
                }),
                ReviewStart::Begun(places) => !old(self)@.contains(doc_id@) && scope_of(
                    chunk_ids(chunks@),
                    *req,
                ) == Scope::Places(place_numbers(places@)),
            },
    {
        if self.is_running(doc_id) {
            return ReviewStart::Conflict;
        }
        match select_chunks(chunks, req) {
            Ok(places) => {
                let ghost before = self.ids@;
                self.ids.push(doc_id.to_owned());
                proof {
                    let a = crate::text::texts(before);
                    let b = crate::text::texts(self.ids@);
                    assert(b == a.push(doc_id@));
                    assert forall|t: Seq<char>| #[trigger] b.to_set().contains(t) == a.to_set().insert(
                        doc_id@,
                    ).contains(t) by {
                        if b.contains(t) {
                            let i = choose|i: int| 0 <= i < b.len() && b[i] == t;
                            if i < a.len() {
                                assert(a[i] == t);
                            }
                        }
                        if a.contains(t) {
                            let i = choose|i: int| 0 <= i < a.len() && a[i] == t;
                            assert(b[i] == t);
                        }
                        assert(b.last() == doc_id@);
                    }
                    assert(b.to_set() =~= a.to_set().insert(doc_id@));
                }
                ReviewStart::Begun(places)
            },
            Err(answer) => ReviewStart::Refused(answer),
        }
    }

    /// The review of a document has ended.
    pub fn end(&mut self, doc_id: &str)
        ensures
            final(self)@ == old(self)@.remove(doc_id@),
    {
        let ghost given = self.ids@;
        let ghost all = crate::text::texts(given);
        let mut kept: Vec<String> = Vec::new();
        let mut i: usize = 0;
        while i < self.ids.len()
            invariant
                i <= self.ids.len(),
                self.ids@ == given,
                all == crate::text::texts(given),
                forall|t: Seq<char>|
                    #[trigger] crate::text::texts(kept@).contains(t) <==> t != doc_id@ && all.take(
                        i as int,
                    ).contains(t),
            decreases self.ids.len() - i,
        {
            let ghost a = crate::text::texts(kept@);
            if !same_text(self.ids[i].as_str(), doc_id) {
                let id = self.ids[i].clone();
                kept.push(id);
            }
            proof {
                let b = crate::text::texts(kept@);
                let now = all.take(i + 1);
                let before = all.take(i as int);
                assert(now == before.push(all[i as int]));
                assert(all[i as int] == given[i as int]@);
                assert(all[i as int] != doc_id@ ==> b == a.push(all[i as int]));
                assert forall|t: Seq<char>| #[trigger] b.contains(t) <==> t != doc_id@
                    && now.contains(t) by {
                    assert(a.contains(t) <==> t != doc_id@ && before.contains(t));
                    lemma_push_contains(before, all[i as int], t);
                    lemma_push_contains(a, all[i as int], t);
                }
            }
            i = i + 1;
        }
        assert(all.take(i as int) == all);
        self.ids = kept;
        assert(self@ =~= old(self)@.remove(doc_id@));
    }
}

/// What stands in a list with one more text.
proof fn lemma_push_contains(list: Seq<Seq<char>>, x: Seq<char>, t: Seq<char>)
    ensures
        list.push(x).contains(t) <==> list.contains(t) || t == x,
{
    let all = list.push(x);
    if list.contains(t) {
        let i = choose|i: int| 0 <= i < list.len() && list[i] == t;
        assert(all[i] == t);
    }
    if t == x {
        assert(all[list.len() as int] == t);
    }
    if all.contains(t) {
        let i = choose|i: int| 0 <= i < all.len() && all[i] == t;
        if i < list.len() {
            assert(list[i] == t);
        }
    }
}

/// The answer to a request that began a review.
pub fn accepted(doc_id: &str) -> (answer: (u16, ReviewAccepted))
    ensures
        answer.0 == crate::api::ACCEPTED,
        answer.1.status@ == "accepted"@,
        answer.1.document_id@ == doc_id@,
        answer.1.message@ == "审核任务已提交，通过 SSE 获取实时进度"@,
{
    (
        ACCEPTED,
        ReviewAccepted {
            status: "accepted".to_owned(),
            document_id: doc_id.to_owned(),
            message: "审核任务已提交，通过 SSE 获取实时进度".to_owned(),
        },
    )
}

/// The answer to a request for a review that is running already.
pub fn conflict(doc_id: &str) -> (answer: (u16, ReviewAccepted))
    ensures
        answer.0 == crate::api::CONFLICT,
        answer.1.status@ == "conflict"@,
        answer.1.document_id@ == doc_id@,
        answer.1.message@ == "该文档已有进行中的审核任务"@,
{
    (
        CONFLICT,
        ReviewAccepted {
            status: "conflict".to_owned(),
            document_id: doc_id.to_owned(),
            message: "该文档已有进行中的审核任务".to_owned(),
        },
    )
}

// ── What comes of a review ──

/// A risk that a review has found.
#[derive(Debug)]
pub struct RiskFinding {
    /// The pieces that the finding is about.
    pub clause_ids: Vec<String>,
    pub high: bool,
    pub source_quote: String,
    pub reason: String,
    pub suggestion: String,
    pub critical_reason: String,
    pub legal_basis: Vec<String>,
    /// The page, counted from 1.
    pub page_number: Option<usize>,
    pub section_path: Option<Vec<String>>,
    pub context: Option<String>,
    pub block_ids: Vec<String>,
}

/// The piece with an id. If an id comes more than once, the last piece counts.
pub open spec fn chunk_with_id(chunks: Seq<Chunk>, id: Seq<char>) -> Option<Chunk>
    decreases chunks.len(),
{
    if chunks.len() == 0 {
        None
    } else if chunks.last().chunk_id@ == id {
        Some(chunks.last())
    } else {
        chunk_with_id(chunks.drop_last(), id)
    }
}

/// The piece with an id.
pub fn find_chunk<'a>(chunks: &'a Vec<Chunk>, id: &str) -> (found: Option<&'a Chunk>)
    ensures
        match found {
            Some(chunk) => chunk_with_id(chunks@, id@) == Some(*chunk),
            None => chunk_with_id(chunks@, id@) is None,
        },
{
    let mut n: usize = chunks.len();
    assert(chunks@.take(n as int) == chunks@);
    while n > 0
        invariant
            n <= chunks.len(),
            chunk_with_id(chunks@, id@) == chunk_with_id(chunks@.take(n as int), id@),
        decreases n,
    {
        assert(chunks@.take(n as int).last() == chunks@[n - 1]);
        assert(chunks@.take(n as int).drop_last() == chunks@.take(n - 1));
        if same_text(chunks[n - 1].chunk_id.as_str(), id) {
            return Some(&chunks[n - 1]);
        }
        n = n - 1;
    }
    None
}

/// The piece that a finding points at: that of the first of its clauses.
pub open spec fn piece_of(finding: RiskFinding, chunks: Seq<Chunk>) -> Option<Chunk> {
    if finding.clause_ids@.len() == 0 {
        None
    } else {
        chunk_with_id(chunks, finding.clause_ids@[0]@)
    }
}

/// Whether a finding has the place of a piece.
pub open spec fn is_located_at(finding: RiskFinding, chunk: Chunk) -> bool {
    &&& finding.page_number == Some((chunk.page_start + 1) as usize)
    &&& finding.section_path matches Some(path) && crate::text::texts(path@)
        == crate::text::texts(chunk.section_path@)
    &&& finding.context matches Some(context) && context@ == crate::text::first_chars(
        chunk.text@,
        500,
    )
    &&& crate::text::texts(finding.block_ids@) == crate::text::texts(chunk.source_block_ids@)
}

/// Whether two findings have the same place.
pub open spec fn has_place_of(a: RiskFinding, b: RiskFinding) -> bool {
    a.page_number == b.page_number && a.section_path == b.section_path && a.context == b.context
        && a.block_ids == b.block_ids
}

/// Whether two findings say the same.
pub open spec fn says_the_same(a: RiskFinding, b: RiskFinding) -> bool {
    a.clause_ids == b.clause_ids && a.high == b.high && a.source_quote == b.source_quote
        && a.reason == b.reason && a.suggestion == b.suggestion && a.critical_reason
        == b.critical_reason && a.legal_basis == b.legal_basis
}

/// Gives a finding the place of the piece that it points at. One that points at no piece stays
/// as it is.
pub fn locate(finding: RiskFinding, chunks: &Vec<Chunk>) -> (located: RiskFinding)
    requires
        piece_of(finding, chunks@) matches Some(chunk) ==> chunk.page_start < usize::MAX,
    ensures
        says_the_same(located, finding),
        match piece_of(finding, chunks@) {
            Some(chunk) => is_located_at(located, chunk),
            None => has_place_of(located, finding),
        },
{
    if finding.clause_ids.len() == 0 {
        return finding;
    }
    let found = find_chunk(chunks, finding.clause_ids[0].as_str());
    match found {
        Some(chunk) => RiskFinding {
            clause_ids: finding.clause_ids,
            high: finding.high,
            source_quote: finding.source_quote,
            reason: finding.reason,
            suggestion: finding.suggestion,
            critical_reason: finding.critical_reason,
            legal_basis: finding.legal_basis,
            page_number: Some(chunk.page_start + 1),
            section_path: Some(chunk.section_path.clone()),
            context: Some(take_chars(chunk.text.as_str(), 500)),
            block_ids: chunk.source_block_ids.clone(),
        },
        None => finding,
    }
}

/// Whether a text is what restoring gives for another.
pub open spec fn is_restored<F: Fn(&str) -> String>(restore: F, before: String, after: String) -> bool {
    exists|s: &str| s@ == before@ && #[trigger] call_ensures(restore, (s,), after)
}

/// Whether the texts of a list are what restoring gives for those of another, one for one.
pub open spec fn are_restored<F: Fn(&str) -> String>(
    restore: F,
    before: Seq<String>,
    after: Seq<String>,
) -> bool {
    &&& after.len() == before.len()
    &&& forall|i: int|
        0 <= i < after.len() ==> is_restored(restore, before[i], #[trigger] after[i])
}

/// Restores each text of a list.
pub fn restore_list<F: Fn(&str) -> String>(list: Vec<String>, restore: &F) -> (restored: Vec<
    String,
>)
    requires
        forall|s: &str| call_requires(*restore, (s,)),
    ensures
        are_restored(*restore, list@, restored@),
{
    let mut restored: Vec<String> = Vec::new();
    let mut i: usize = 0;
    while i < list.len()
        invariant
            i <= list.len(),
            forall|s: &str| call_requires(*restore, (s,)),
            restored@.len() == i,
            forall|k: int|
                0 <= k < i ==> is_restored(*restore, list@[k], #[trigger] restored@[k]),
        decreases list.len() - i,
    {
        let text = restore(list[i].as_str());
        restored.push(text);
        i = i + 1;
    }
    restored
}

/// Restores the texts of a finding, and nothing else of it.
pub fn restore_finding<F: Fn(&str) -> String>(finding: RiskFinding, restore: &F) -> (restored:
    RiskFinding)
    requires
        forall|s: &str| call_requires(*restore, (s,)),
    ensures
        has_place_of(restored, finding),
        restored.clause_ids == finding.clause_ids,
        restored.high == finding.high,
        is_restored(*restore, finding.source_quote, restored.source_quote),
        is_restored(*restore, finding.reason, restored.reason),
        is_restored(*restore, finding.suggestion, restored.suggestion),
        is_restored(*restore, finding.critical_reason, restored.critical_reason),
        are_restored(*restore, finding.legal_basis@, restored.legal_basis@),
{
    let source_quote = restore(finding.source_quote.as_str());
    let reason = restore(finding.reason.as_str());
    let suggestion = restore(finding.suggestion.as_str());
    let critical_reason = restore(finding.critical_reason.as_str());
    let legal_basis = restore_list(finding.legal_basis, restore);
    RiskFinding {
        clause_ids: finding.clause_ids,
        high: finding.high,
        source_quote,
        reason,
        suggestion,
        critical_reason,
        legal_basis,
        page_number: finding.page_number,
        section_path: finding.section_path,
        context: finding.context,
        block_ids: finding.block_ids,
    }
}

/// Whether a finding is what finishing gives for another: its texts are restored, and it has the
/// place of the piece that it points at.
pub open spec fn is_finished<F: Fn(&str) -> String>(
    restore: F,
    chunks: Seq<Chunk>,
    before: RiskFinding,
    after: RiskFinding,
) -> bool {
    &&& after.clause_ids == before.clause_ids
    &&& after.high == before.high
    &&& is_restored(restore, before.source_quote, after.source_quote)
    &&& is_restored(restore, before.reason, after.reason)
    &&& is_restored(restore, before.suggestion, after.suggestion)
    &&& is_restored(restore, before.critical_reason, after.critical_reason)
    &&& are_restored(restore, before.legal_basis@, after.legal_basis@)
    &&& match piece_of(before, chunks) {
        Some(chunk) => is_located_at(after, chunk),
        None => has_place_of(after, before),
    }
}

/// Finishes the findings of a review, in their order: restores their texts and gives each the
/// place of the piece that it points at.
pub fn finish_findings<F: Fn(&str) -> String>(
    findings: Vec<RiskFinding>,
    chunks: &Vec<Chunk>,
    restore: &F,
) -> (finished: Vec<RiskFinding>)
    requires
        forall|s: &str| call_requires(*restore, (s,)),
        forall|i: int|
            0 <= i < findings@.len() ==> (piece_of(#[trigger] findings@[i], chunks@) matches Some(
                chunk,
            ) ==> chunk.page_start < usize::MAX),
    ensures
        finished@.len() == findings@.len(),
        forall|i: int|
            0 <= i < finished@.len() ==> is_finished(
                *restore,
                chunks@,
                findings@[i],
                #[trigger] finished@[i],
            ),
{
    let ghost given = findings@;
    let mut finished: Vec<RiskFinding> = Vec::new();
    for finding in iter: findings
        invariant
            iter.seq() == given,
            forall|s: &str| call_requires(*restore, (s,)),
            forall|i: int|
                0 <= i < given.len() ==> (piece_of(#[trigger] given[i], chunks@) matches Some(
                    chunk,
                ) ==> chunk.page_start < usize::MAX),
            finished@.len() == iter.index(),
            forall|i: int|
                0 <= i < iter.index() ==> is_finished(
                    *restore,
                    chunks@,
                    given[i],
                    #[trigger] finished@[i],
                ),
    {
        assert(finding == given[iter.index() as int]);
        let restored = restore_finding(finding, restore);
        assert(piece_of(restored, chunks@) == piece_of(finding, chunks@));
        let located = locate(restored, chunks);
        finished.push(located);
    }
    finished
}

/// How many findings are of high risk.
pub fn count_high(findings: &Vec<RiskFinding>) -> (count: usize)
    ensures
        count == findings@.filter(|f: RiskFinding| f.high).len(),
{
    let ghost keep = |f: RiskFinding| f.high;
    let mut count: usize = 0;
    let mut i: usize = 0;
    assert(findings@.take(0).filter(keep).len() == 0) by {
        reveal(Seq::filter);
    }
    while i < findings.len()
        invariant
            i <= findings.len(),
            keep == (|f: RiskFinding| f.high),
            count <= i,
            count == findings@.take(i as int).filter(keep).len(),
        decreases findings.len() - i,
    {
        proof {
            crate::lists::lemma_filter_step(findings@, i as int, keep);
        }
        if findings[i].high {
            count = count + 1;
        }
        i = i + 1;
    }
    assert(findings@.take(i as int) == findings@);
    count
}

/// How many findings point at blocks.
pub fn count_with_blocks(findings: &Vec<RiskFinding>) -> (count: usize)
    ensures
        count == findings@.filter(|f: RiskFinding| f.block_ids@.len() > 0).len(),
{
    let ghost keep = |f: RiskFinding| f.block_ids@.len() > 0;
    let mut count: usize = 0;
    let mut i: usize = 0;
    assert(findings@.take(0).filter(keep).len() == 0) by {
        reveal(Seq::filter);
    }
    while i < findings.len()
        invariant
            i <= findings.len(),
            keep == (|f: RiskFinding| f.block_ids@.len() > 0),
            count <= i,
            count == findings@.take(i as int).filter(keep).len(),
        decreases findings.len() - i,
    {
        proof {
            crate::lists::lemma_filter_step(findings@, i as int, keep);
        }
        if findings[i].block_ids.len() > 0 {
            count = count + 1;
        }
        i = i + 1;
    }
    assert(findings@.take(i as int) == findings@);
    count
}

/// What a client is told of a review that failed.
pub fn failure_message(reason: &str) -> (message: String)
    ensures
        message@ == "审核引擎执行失败: "@ + reason@,
{
    let mut message = "审核引擎执行失败: ".to_owned();
    message.append(reason);
    message
}

/// What the listeners of a review are told when it ends.
#[derive(Debug)]
pub enum ReviewEnd {
    Done { total_findings: usize, high_risk: usize, session_id: String },
    Error { message: String, session_id: String },
}

/// What a review leaves behind.
#[derive(Debug)]
pub struct ReviewOutcome {
    /// The findings that are stored as its result.
    pub findings: Option<Vec<RiskFinding>>,
    /// The message that is stored as its failure.
    pub error: Option<String>,
    /// What the listeners are told.
    pub end: ReviewEnd,
}

/// Whether an outcome is that of a review with those findings: they are stored once they are
/// finished, and the listeners are told how many there are and how many are of high risk.
pub open spec fn is_success<F: Fn(&str) -> String>(
    outcome: ReviewOutcome,
    doc_id: Seq<char>,
    findings: Seq<RiskFinding>,
    chunks: Seq<Chunk>,
    restore: F,
) -> bool {
    &&& outcome.error is None
    &&& outcome.findings matches Some(finished) && {
        &&& finished@.len() == findings.len()
        &&& forall|i: int|
            0 <= i < findings.len() ==> is_finished(
                restore,
                chunks,
                findings[i],
                #[trigger] finished@[i],
            )
    }
    &&& outcome.end matches ReviewEnd::Done { total_findings, high_risk, session_id } && {
        &&& total_findings == findings.len()
        &&& high_risk == findings.filter(|f: RiskFinding| f.high).len()
        &&& session_id@ == doc_id
    }
}

/// Whether an outcome is that of a review that failed for a reason: the message is stored, and the
/// listeners are told it.
pub open spec fn is_failure(outcome: ReviewOutcome, doc_id: Seq<char>, reason: Seq<char>) -> bool {
    let text = "审核引擎执行失败: "@ + reason;
    &&& outcome.findings is None
    &&& outcome.error matches Some(stored) && stored@ == text
    &&& outcome.end matches ReviewEnd::Error { message, session_id } && message@ == text
        && session_id@ == doc_id
}

/// Findings that are of high risk one for one are so in the same number.
proof fn lemma_high_stays(before: Seq<RiskFinding>, after: Seq<RiskFinding>)
    requires
        before.len() == after.len(),
        forall|i: int| 0 <= i < before.len() ==> before[i].high == (#[trigger] after[i]).high,
    ensures
        before.filter(|f: RiskFinding| f.high).len() == after.filter(
            |f: RiskFinding| f.high,
        ).len(),
    decreases before.len(),
{
    reveal(Seq::filter);
    if before.len() > 0 {
        lemma_high_stays(before.drop_last(), after.drop_last());
        assert(before.last().high == after.last().high);
    }
}

/// What a review of a document leaves behind, by what came of it: its findings, or the reason why
/// it failed.
pub fn review_outcome<F: Fn(&str) -> String>(
    doc_id: &str,
    reviewed: Result<Vec<RiskFinding>, String>,
    chunks: &Vec<Chunk>,
    restore: &F,
) -> (outcome: ReviewOutcome)
    requires
        forall|s: &str| call_requires(*restore, (s,)),
        reviewed matches Ok(findings) ==> (forall|i: int|
            0 <= i < findings@.len() ==> (piece_of(#[trigger] findings@[i], chunks@) matches Some(
                chunk,
            ) ==> chunk.page_start < usize::MAX)),
    ensures
        match reviewed {
            Ok(findings) => is_success(outcome, doc_id@, findings@, chunks@, *restore),
            Err(reason) => is_failure(outcome, doc_id@, reason@),
        },
{
    match reviewed {
        Ok(findings) => {
            let ghost given = findings@;
            let finished = finish_findings(findings, chunks, restore);
            let total_findings = finished.len();
            let high_risk = count_high(&finished);
            proof {
                lemma_high_stays(given, finished@);
            }
            ReviewOutcome {
                findings: Some(finished),
                error: None,
                end: ReviewEnd::Done { total_findings, high_risk, session_id: doc_id.to_owned() },
            }
        },
        Err(reason) => {
            let message = failure_message(reason.as_str());
            ReviewOutcome {
                findings: None,
                error: Some(message.clone()),
                end: ReviewEnd::Error { message, session_id: doc_id.to_owned() },
            }
        },
    }
}

// ── Asking for the result ──

/// The result of a review: its findings, how they were routed, and the graph of the session.
#[derive(Debug)]
pub struct ReviewResponse<F, S, G> {
    pub document_id: String,
    pub findings: Vec<F>,
    pub routing_summary: S,
    pub graph_snapshot: Option<G>,
}

/// How a review stands.
#[derive(Debug)]
pub struct ReviewResultResponse<F, S, G> {
    pub status: String,
    pub result: Option<ReviewResponse<F, S, G>>,
    pub error: Option<String>,
}

/// How a review stands, by what is known of it: its result, else its failure, else that it is
/// running. `None` if nothing is known.
pub fn known_result<F, S, G>(
    completed: Option<ReviewResponse<F, S, G>>,
    failed: Option<String>,
    running: bool,
) -> (known: Option<ReviewResultResponse<F, S, G>>)
    ensures
        match known {
            Some(answer) => if completed is Some {
                answer.status@ == "completed"@ && answer.result == completed && answer.error
                    is None
            } else if failed is Some {
                answer.status@ == "failed"@ && answer.result is None && answer.error == failed
            } else {
                running && answer.status@ == "pending"@ && answer.result is None
                    && answer.error is None
            },
            None => completed is None && failed is None && !running,
        },
{
    if completed.is_some() {
        return Some(
            ReviewResultResponse { status: "completed".to_owned(), result: completed, error: None },
        );
    }
    if failed.is_some() {
        return Some(
            ReviewResultResponse { status: "failed".to_owned(), result: None, error: failed },
        );
    }
    if running {
        return Some(
            ReviewResultResponse { status: "pending".to_owned(), result: None, error: None },
        );
    }
    None
}

/// How a review stands, where nothing is known of it but what was stored.
pub fn stored_result<F, S, G>(
    doc_id: &str,
    stored: Option<ReviewResultResponse<F, S, G>>,
) -> (answer: Result<ReviewResultResponse<F, S, G>, (u16, ErrorResponse)>)
    ensures
        match answer {
            Ok(result) => stored == Some(result),
            Err(e) => stored is None && crate::api::is_error(
                e,
                crate::api::NOT_FOUND,
                "NOT_FOUND"@,
                "审查结果不存在: "@ + doc_id@,
            ),
        },
{
    match stored {
        Some(result) => Ok(result),
        None => {
            let mut msg = "审查结果不存在: ".to_owned();
            msg.append(doc_id);
            Err(not_found(msg.as_str()))
        },
    }
}

// ── Laws ──

/// While a review of a document is running, no other one of it begins; once it has ended, the
/// same request begins again.
pub proof fn a_document_has_one_review_at_a_time(
    active: Set<Seq<char>>,
    doc_id: Seq<char>,
    ids: Seq<Seq<char>>,
    req: ReviewRequest,
    other: ReviewRequest,
)
    requires
        begins(active, doc_id, ids, req),
    ensures
        ({
            let now = active_after(active, doc_id, ids, req);
            &&& !begins(now, doc_id, ids, other)
            &&& active_after(now, doc_id, ids, other) == now
            &&& begins(now.remove(doc_id), doc_id, ids, req)
        }),
{
}

/// A request that is refused leaves no review running, so that a better one can follow.
pub proof fn a_refused_request_blocks_nothing(
    active: Set<Seq<char>>,
    doc_id: Seq<char>,
    ids: Seq<Seq<char>>,
    refused: ReviewRequest,
    better: ReviewRequest,
)
    requires
        !active.contains(doc_id),
        !(scope_of(ids, refused) is Places),
        scope_of(ids, better) is Places,
    ensures
        active_after(active, doc_id, ids, refused) == active,
        begins(active_after(active, doc_id, ids, refused), doc_id, ids, better),
{
}

/// Requests for one document do not touch the reviews of another.
pub proof fn other_reviews_are_untouched(
    active: Set<Seq<char>>,
    doc_id: Seq<char>,
    other: Seq<char>,
    ids: Seq<Seq<char>>,
    req: ReviewRequest,
)
    requires
        other != doc_id,
    ensures
        active_after(active, doc_id, ids, req).contains(other) == active.contains(other),
{
}

/// The places that a request covers are those of the pieces it names, in their order.
proof fn lemma_places(ids: Seq<Seq<char>>, req: ReviewRequest, n: int, i: int)
    requires
        0 <= n <= ids.len(),
        0 <= i < requested_places(ids, req, n).len(),
    ensures
        0 <= requested_places(ids, req, n)[i] < n,
        is_requested(req, ids[requested_places(ids, req, n)[i]]),
        i > 0 ==> requested_places(ids, req, n)[i - 1] < requested_places(ids, req, n)[i],
    decreases n,
{
    let before = requested_places(ids, req, n - 1);
    if i < before.len() {
        lemma_places(ids, req, n - 1, i);
    } else if i > 0 {
        lemma_places(ids, req, n - 1, i - 1);
    }
}

/// A review covers only pieces that were asked for, in the order of the document, and no more
/// than the limit.
pub proof fn a_review_covers_what_was_asked_for(
    ids: Seq<Seq<char>>,
    req: ReviewRequest,
    places: Seq<int>,
    i: int,
)
    requires
        scope_of(ids, req) == Scope::Places(places),
        0 <= i < places.len(),
    ensures
        0 <= places[i] < ids.len(),
        is_requested(req, ids[places[i]]),
        i > 0 ==> places[i - 1] < places[i],
        req.max_clauses matches Some(limit) ==> places.len() <= limit,
{
    lemma_places(ids, req, ids.len() as int, i);
}

/// Without a limit, a review covers every piece that was asked for.
pub proof fn a_review_leaves_out_nothing(ids: Seq<Seq<char>>, req: ReviewRequest, n: int, k: int)
    requires
        0 <= k < n <= ids.len(),
        is_requested(req, ids[k]),
    ensures
        requested_places(ids, req, n).contains(k),
    decreases n,
{
    let all = requested_places(ids, req, n);
    if k < n - 1 {
        a_review_leaves_out_nothing(ids, req, n - 1, k);
        let before = requested_places(ids, req, n - 1);
        let i = choose|i: int| 0 <= i < before.len() && before[i] == k;
        assert(all[i] == k);
    } else {
        assert(all.last() == k);
    }
}

/// Which of the first pieces are asked for does not depend on those behind them.
proof fn lemma_first_places(a: Seq<Seq<char>>, b: Seq<Seq<char>>, req: ReviewRequest, n: int)
    requires
        n <= a.len(),
        n <= b.len(),
        forall|i: int| 0 <= i < n ==> a[i] == #[trigger] b[i],
    ensures
        requested_places(a, req, n) == requested_places(b, req, n),
    decreases n,
{
    if n > 0 {
        lemma_first_places(a, b, req, n - 1);
        assert(a[n - 1] == b[n - 1]);
    }
}

/// One more piece is asked for exactly if no piece is named, or this one is; its place comes behind
/// those of the pieces before it.
pub proof fn a_piece_is_asked_for_by_its_id(ids: Seq<Seq<char>>, req: ReviewRequest, id: Seq<char>)
    ensures
        requested_places(Seq::empty(), req, 0) == Seq::<int>::empty(),
        requested_places(ids.push(id), req, ids.len() as int + 1) == (if req.chunk_ids@.len() == 0
            || exists|i: int| 0 <= i < req.chunk_ids@.len() && (#[trigger] req.chunk_ids@[i])@ == id {
            requested_places(ids, req, ids.len() as int).push(ids.len() as int)
        } else {
            requested_places(ids, req, ids.len() as int)
        }),
{
    let n = ids.len() as int;
    lemma_first_places(ids.push(id), ids, req, n);
    assert(ids.push(id)[n] == id);
    let named = crate::text::texts(req.chunk_ids@);
    if exists|i: int| 0 <= i < req.chunk_ids@.len() && (#[trigger] req.chunk_ids@[i])@ == id {
        let i = choose|i: int| 0 <= i < req.chunk_ids@.len() && (#[trigger] req.chunk_ids@[i])@ == id;
        assert(named[i] == id);
    }
    if named.contains(id) {
        let i = choose|i: int| 0 <= i < named.len() && named[i] == id;
        assert(req.chunk_ids@[i]@ == id);
    }
}

/// A review covers as many of the pieces that are asked for as its limit allows, and those are the
/// first of them. Only a request that names pieces which the document does not have, or that allows
/// none, is refused.
pub proof fn a_review_covers_as_much_as_it_may(ids: Seq<Seq<char>>, req: ReviewRequest)
    ensures
        ({
            let all = requested_places(ids, req, ids.len() as int);
            match scope_of(ids, req) {
                Scope::NoneOfThese => req.chunk_ids@.len() > 0 && all.len() == 0,
                Scope::NoRoom => req.max_clauses == Some(0usize) && (req.chunk_ids@.len() == 0
                    || all.len() > 0),
                Scope::Places(places) => {
                    &&& req.max_clauses != Some(0usize)
                    &&& req.chunk_ids@.len() == 0 || all.len() > 0
                    &&& req.max_clauses is None ==> places.len() == all.len()
                    &&& req.max_clauses matches Some(limit) ==> places.len() == (if all.len() < limit {
                        all.len() as int
                    } else {
                        limit as int
                    })
                    &&& forall|i: int| 0 <= i < places.len() ==> #[trigger] places[i] == all[i]
                },
            }
        }),
{
}

/// The places of the first pieces that are asked for are the first of those of all.
proof fn lemma_places_grow(ids: Seq<Seq<char>>, req: ReviewRequest, k: int, n: int)
    requires
        k <= n,
    ensures
        requested_places(ids, req, k).len() <= requested_places(ids, req, n).len(),
        forall|i: int|
            0 <= i < requested_places(ids, req, k).len() ==> #[trigger] requested_places(
                ids,
                req,
                n,
            )[i] == requested_places(ids, req, k)[i],
    decreases n - k,
{
    if k < n {
        lemma_places_grow(ids, req, k, n - 1);
    }
}

/// A piece that is asked for is covered if fewer such pieces stand before it than the limit allows.
pub proof fn a_piece_within_the_limit_is_covered(
    ids: Seq<Seq<char>>,
    req: ReviewRequest,
    places: Seq<int>,
    k: int,
)
    requires
        scope_of(ids, req) == Scope::Places(places),
        0 <= k < ids.len(),
        req.chunk_ids@.len() == 0 || exists|i: int|
            0 <= i < req.chunk_ids@.len() && (#[trigger] req.chunk_ids@[i])@ == ids[k],
        req.max_clauses matches Some(limit) ==> requested_places(ids, req, k).len() < limit,
    ensures
        places.contains(k),
        places[requested_places(ids, req, k).len() as int] == k,
{
    let named = crate::text::texts(req.chunk_ids@);
    if req.chunk_ids@.len() > 0 {
        let i = choose|i: int|
            0 <= i < req.chunk_ids@.len() && (#[trigger] req.chunk_ids@[i])@ == ids[k];
        assert(named[i] == ids[k]);
    }
    lemma_places_grow(ids, req, k + 1, ids.len() as int);
    let before = requested_places(ids, req, k);
    let upto = requested_places(ids, req, k + 1);
    assert(upto == before.push(k));
    let all = requested_places(ids, req, ids.len() as int);
    assert(all[before.len() as int] == upto[before.len() as int]);
    assert(places[before.len() as int] == k);
}

/// Without a limit, every request for pieces that the document has is met in full, and a request
/// that names none covers them all.
pub proof fn a_request_for_nothing_covers_everything(ids: Seq<Seq<char>>, req: ReviewRequest, n: int)
    requires
        req.chunk_ids@.len() == 0,
        0 <= n <= ids.len(),
    ensures
        requested_places(ids, req, n) == Seq::new(n as nat, |i: int| i),
        n == ids.len() && req.max_clauses is None ==> scope_of(ids, req) == Scope::Places(
            Seq::new(ids.len(), |i: int| i),
        ),
    decreases n,
{
    if n > 0 {
        a_request_for_nothing_covers_everything(ids, req, n - 1);
        assert(requested_places(ids, req, n) =~= Seq::new(n as nat, |i: int| i));
    } else {
        assert(requested_places(ids, req, n) =~= Seq::new(n as nat, |i: int| i));
    }
}

/// Pieces are found by their ids; of two with one id the later one counts.
pub proof fn the_last_piece_of_an_id_counts(chunks: Seq<Chunk>, chunk: Chunk, id: Seq<char>)
    ensures
        chunk_with_id(Seq::empty(), id) is None,
        chunk_with_id(chunks.push(chunk), id) == (if chunk.chunk_id@ == id {
            Some(chunk)
        } else {
            chunk_with_id(chunks, id)
        }),
{
    assert(chunks.push(chunk).drop_last() =~= chunks);
}

/// A finished finding says of what, and how severely, what it said before; each of its texts is
/// what restoring gives for that text. It has the page after the index of the piece of its first
/// clause, and that piece's section, blocks and first five hundred characters; without such a
/// piece it has the place it had.
pub proof fn a_finished_finding_is_restored_and_placed<F: Fn(&str) -> String>(
    restore: F,
    chunks: Seq<Chunk>,
    before: RiskFinding,
    after: RiskFinding,
)
    requires
        is_finished(restore, chunks, before, after),
    ensures
        after.clause_ids == before.clause_ids,
        after.high == before.high,
        exists|s: &str| s@ == before.source_quote@ && #[trigger] call_ensures(
            restore,
            (s,),
            after.source_quote,
        ),
        exists|s: &str| s@ == before.reason@ && #[trigger] call_ensures(restore, (s,), after.reason),
        exists|s: &str| s@ == before.suggestion@ && #[trigger] call_ensures(
            restore,
            (s,),
            after.suggestion,
        ),
        exists|s: &str| s@ == before.critical_reason@ && #[trigger] call_ensures(
            restore,
            (s,),
            after.critical_reason,
        ),
        after.legal_basis@.len() == before.legal_basis@.len(),
        forall|i: int|
            0 <= i < after.legal_basis@.len() ==> is_restored(
                restore,
                before.legal_basis@[i],
                #[trigger] after.legal_basis@[i],
            ),
        before.clause_ids@.len() > 0 && chunk_with_id(chunks, before.clause_ids@[0]@) is Some ==> {
            let chunk = chunk_with_id(chunks, before.clause_ids@[0]@)->0;
            &&& chunk.page_start < usize::MAX ==> after.page_number == Some(
                (chunk.page_start + 1) as usize,
            )
            &&& after.section_path matches Some(path) && path@.len() == chunk.section_path@.len()
                && forall|i: int|
                0 <= i < path@.len() ==> (#[trigger] path@[i])@ == chunk.section_path@[i]@
            &&& after.context matches Some(context) && context@ == (if chunk.text@.len() <= 500 {
                chunk.text@
            } else {
                chunk.text@.take(500)
            })
            &&& after.block_ids@.len() == chunk.source_block_ids@.len()
            &&& forall|i: int|
                0 <= i < after.block_ids@.len() ==> (#[trigger] after.block_ids@[i])@
                    == chunk.source_block_ids@[i]@
        },
        before.clause_ids@.len() == 0 || chunk_with_id(chunks, before.clause_ids@[0]@) is None
            ==> after.page_number == before.page_number && after.section_path == before.section_path
            && after.context == before.context && after.block_ids == before.block_ids,
{
    assert(is_restored(restore, before.source_quote, after.source_quote));
    assert(is_restored(restore, before.reason, after.reason));
    assert(is_restored(restore, before.suggestion, after.suggestion));
    assert(is_restored(restore, before.critical_reason, after.critical_reason));
    if let Some(chunk) = piece_of(before, chunks) {
        let path = after.section_path->0@;
        let (a, b) = (crate::text::texts(path), crate::text::texts(chunk.section_path@));
        assert(a.len() == path.len() && b.len() == chunk.section_path@.len());
        assert forall|i: int| 0 <= i < path.len() implies (#[trigger] path[i])@
            == chunk.section_path@[i]@ by {
            assert(a[i] == b[i]);
        }
        let (c, d) = (
            crate::text::texts(after.block_ids@),
            crate::text::texts(chunk.source_block_ids@),
        );
        assert(c.len() == after.block_ids@.len() && d.len() == chunk.source_block_ids@.len());
        assert forall|i: int| 0 <= i < after.block_ids@.len() implies (#[trigger] after.block_ids@[i])@
            == chunk.source_block_ids@[i]@ by {
            assert(c[i] == d[i]);
        }
    }
}

/// A review ends in one way only: with its findings, all of them and nothing else, and the count of
/// those of high risk; or with a message that tells the reason. What is stored is what is told.
pub proof fn a_review_ends_in_one_way<F: Fn(&str) -> String>(
    outcome: ReviewOutcome,
    doc_id: Seq<char>,
    findings: Seq<RiskFinding>,
    chunks: Seq<Chunk>,
    restore: F,
    reason: Seq<char>,
)
    ensures
        is_success(outcome, doc_id, findings, chunks, restore) ==> {
            &&& outcome.error is None
            &&& outcome.findings matches Some(stored) && {
                &&& stored@.len() == findings.len()
                &&& outcome.end matches ReviewEnd::Done { total_findings, high_risk, session_id } && {
                    &&& total_findings == stored@.len()
                    &&& high_risk == stored@.filter(|f: RiskFinding| f.high).len()
                    &&& session_id@ == doc_id
                }
            }
        },
        is_failure(outcome, doc_id, reason) ==> {
            &&& outcome.findings is None
            &&& outcome.error matches Some(stored) && {
                &&& crate::text::contains_text(stored@, reason)
                &&& outcome.end matches ReviewEnd::Error { message, session_id } && message@
                    == stored@ && session_id@ == doc_id
            }
        },
        !(is_success(outcome, doc_id, findings, chunks, restore) && is_failure(
            outcome,
            doc_id,
            reason,
        )),
{
    if is_success(outcome, doc_id, findings, chunks, restore) {
        let stored = outcome.findings->0@;
        assert forall|i: int| 0 <= i < findings.len() implies findings[i].high == (
        #[trigger] stored[i]).high by {
            assert(is_finished(restore, chunks, findings[i], stored[i]));
        }
        lemma_high_stays(findings, stored);
    }
    if is_failure(outcome, doc_id, reason) {
        let lead = "审核引擎执行失败: "@;
        crate::text::a_written_word_is_contained(lead, reason, Seq::empty());
        assert(lead + reason + Seq::<char>::empty() =~= lead + reason);
    }
}

/// Two findings say the same if they agree in all but their places, and have the same place if they
/// agree in those.
pub proof fn findings_agree_by_what_they_say_and_where(a: RiskFinding, b: RiskFinding)
    ensures
        says_the_same(a, b) <==> {
            &&& a.clause_ids == b.clause_ids
            &&& a.high == b.high
            &&& a.source_quote == b.source_quote
            &&& a.reason == b.reason
            &&& a.suggestion == b.suggestion
            &&& a.critical_reason == b.critical_reason
            &&& a.legal_basis == b.legal_basis
        },
        has_place_of(a, b) <==> {
            &&& a.page_number == b.page_number
            &&& a.section_path == b.section_path
            &&& a.context == b.context
            &&& a.block_ids == b.block_ids
        },
{
}

/// A finding points at the piece of the first of its clauses, and at none without clauses.
pub proof fn a_finding_points_at_its_first_clause(finding: RiskFinding, chunks: Seq<Chunk>)
    ensures
        finding.clause_ids@.len() == 0 ==> piece_of(finding, chunks) is None,
        finding.clause_ids@.len() > 0 ==> piece_of(finding, chunks) == chunk_with_id(
            chunks,
            finding.clause_ids@[0]@,
        ),
{
}

/// A finding that is placed at a piece tells the page of the piece as it is counted from one, its
/// path, its first 500 characters and its blocks.
pub proof fn a_placed_finding_tells_its_piece(finding: RiskFinding, chunk: Chunk, i: int)
    requires
        is_located_at(finding, chunk),
        chunk.page_start < usize::MAX,
    ensures
        finding.page_number is Some && finding.page_number->0 == chunk.page_start + 1,
        finding.section_path is Some && finding.section_path->0@.len() == chunk.section_path@.len(),
        0 <= i < chunk.section_path@.len() ==> finding.section_path->0@[i]@
            == chunk.section_path@[i]@,
        finding.context is Some && finding.context->0@ == (if chunk.text@.len() <= 500 {
            chunk.text@
        } else {
            chunk.text@.take(500)
        }),
        finding.block_ids@.len() == chunk.source_block_ids@.len(),
        0 <= i < chunk.source_block_ids@.len() ==> finding.block_ids@[i]@
            == chunk.source_block_ids@[i]@,
{
    let path = crate::text::texts(finding.section_path->0@);
    assert(path.len() == crate::text::texts(chunk.section_path@).len());
    let blocks = crate::text::texts(finding.block_ids@);
    assert(blocks.len() == crate::text::texts(chunk.source_block_ids@).len());
    if 0 <= i < chunk.section_path@.len() {
        assert(path[i] == finding.section_path->0@[i]@);
        assert(crate::text::texts(chunk.section_path@)[i] == chunk.section_path@[i]@);
    }
    if 0 <= i < chunk.source_block_ids@.len() {
        assert(blocks[i] == finding.block_ids@[i]@);
        assert(crate::text::texts(chunk.source_block_ids@)[i] == chunk.source_block_ids@[i]@);
    }
}

/// Pieces are known by their ids and places by their numbers, one by one.
pub proof fn pieces_are_their_ids(chunks: Seq<Chunk>, places: Seq<usize>, i: int)
    ensures
        chunk_ids(chunks).len() == chunks.len(),
        0 <= i < chunks.len() ==> chunk_ids(chunks)[i] == chunks[i].chunk_id@,
        place_numbers(places).len() == places.len(),
        0 <= i < places.len() ==> place_numbers(places)[i] == places[i],
{
}

} // verus!
