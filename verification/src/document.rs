//! Making the documents that the engine runs on.

use crate::api::Chunk;
use crate::metrics::extract_metrics;
use crate::number::decimal;
use crate::schema::{Chapter, Clause, ParsedDocument};
use crate::sections::Section;
use vstd::prelude::*;

verus! {

/// The titles of a section and of the sections in it, the outer one first. An empty title is
/// left out.
pub open spec fn section_titles(section: Section) -> Seq<Seq<char>>
    decreases section,
{
    (if section.title@.len() > 0 {
        seq![section.title@]
    } else {
        Seq::empty()
    }) + list_titles(section.children@)
}

/// The titles of some sections and of the sections in them.
pub open spec fn list_titles(sections: Seq<Section>) -> Seq<Seq<char>>
    decreases sections,
{
    if sections.len() == 0 {
        Seq::empty()
    } else {
        list_titles(sections.drop_last()) + section_titles(sections.last())
    }
}

/// The titles of a section and of the sections in it.
fn collect_section_titles(section: &Section) -> (titles: Vec<String>)
    ensures
        crate::text::texts(titles@) == section_titles(*section),
    decreases section,
{
    let mut titles: Vec<String> = Vec::new();
    if section.title.as_str().unicode_len() > 0 {
        titles.push(section.title.clone());
    }
    let mut more = collect_chapter_titles(&section.children);
    let ghost own = titles@;
    let ghost found = more@;
    titles.append(&mut more);
    assert(crate::text::texts(titles@) == crate::text::texts(own) + crate::text::texts(found));
    assert(crate::text::texts(own) == (if section.title@.len() > 0 {
        seq![section.title@]
    } else {
        Seq::empty()
    }));
    titles
}

/// The titles of some sections and of the sections in them.
pub fn collect_chapter_titles(sections: &Vec<Section>) -> (titles: Vec<String>)
    ensures
        crate::text::texts(titles@) == list_titles(sections@),
    decreases sections,
{
    let mut titles: Vec<String> = Vec::new();
    let mut i: usize = 0;
    assert(crate::text::texts(titles@) == list_titles(sections@.take(0)));
    while i < sections.len()
        invariant
            i <= sections.len(),
            crate::text::texts(titles@) == list_titles(sections@.take(i as int)),
        decreases sections.len() - i,
    {
        let mut more = collect_section_titles(&sections[i]);
        assert(sections@.take(i + 1).drop_last() == sections@.take(i as int));
        assert(sections@.take(i + 1).last() == sections@[i as int]);
        let ghost before = titles@;
        let ghost found = more@;
        titles.append(&mut more);
        assert(crate::text::texts(titles@) == crate::text::texts(before) + crate::text::texts(
            found,
        ));
        i = i + 1;
    }
    assert(sections@.take(i as int) == sections@);
    titles
}

/// A document of clauses, with the metrics that can be read from their texts.
pub open spec fn document_of(
    file_name: Seq<char>,
    chapters: Seq<Seq<char>>,
    clauses: Seq<crate::schema::ClauseView>,
) -> crate::schema::DocumentView {
    crate::schema::DocumentView {
        file_name,
        chapters,
        clauses,
        metrics: crate::metrics::metrics_of(
            crate::metrics::lines(clauses.map_values(|c: crate::schema::ClauseView| c.text)),
        ),
    }
}

/// A document of clauses, with the metrics that can be read from their texts.
fn make_document(file_name: &str, titles: &Vec<String>, clauses: Vec<Clause>) -> (doc:
    ParsedDocument)
    ensures
        doc@ == document_of(
            file_name@,
            crate::text::texts(titles@),
            clauses@.map_values(|c: Clause| c@),
        ),
{
    let ghost models = clauses@.map_values(|c: Clause| c@);
    let mut texts: Vec<&str> = Vec::new();
    let mut i: usize = 0;
    while i < clauses.len()
        invariant
            i <= clauses.len(),
            texts@.len() == i,
            forall|k: int| 0 <= k < i ==> (#[trigger] texts@[k])@ == clauses@[k].text@,
        decreases clauses.len() - i,
    {
        texts.push(clauses[i].text.as_str());
        i = i + 1;
    }
    assert(texts@.map_values(|s: &str| s@) == models.map_values(
        |c: crate::schema::ClauseView| c.text,
    ));
    let metrics = extract_metrics(texts.as_slice());
    let mut chapters: Vec<Chapter> = Vec::new();
    let mut k: usize = 0;
    while k < titles.len()
        invariant
            k <= titles.len(),
            chapters@.len() == k,
            forall|j: int| 0 <= j < k ==> (#[trigger] chapters@[j]).title@ == titles@[j]@,
        decreases titles.len() - k,
    {
        chapters.push(Chapter { title: titles[k].clone() });
        k = k + 1;
    }
    assert(chapters@.map_values(|c: Chapter| c@) == crate::text::texts(titles@));
    let doc = ParsedDocument { file_name: file_name.to_owned(), chapters, clauses, metrics };
    assert(doc@ =~= document_of(file_name@, crate::text::texts(titles@), models));
    doc
}

/// The clause of a piece. Its page is that of the piece, in 32 bits.
pub open spec fn clause_of_chunk(chunk: Chunk) -> crate::schema::ClauseView {
    crate::schema::ClauseView {
        id: chunk.chunk_id@,
        page: chunk.page_start as u32,
        text: chunk.text@,
    }
}

/// The document of some sections and pieces: the titles are its chapters, the pieces its clauses.
pub fn build_parsed_document(
    file_name: &str,
    sections: &Vec<Section>,
    chunks: &Vec<Chunk>,
) -> (doc: ParsedDocument)
    ensures
        doc@ == document_of(
            file_name@,
            list_titles(sections@),
            chunks@.map_values(|c: Chunk| clause_of_chunk(c)),
        ),
{
    let titles = collect_chapter_titles(sections);
    let mut clauses: Vec<Clause> = Vec::new();
    let mut i: usize = 0;
    while i < chunks.len()
        invariant
            i <= chunks.len(),
            clauses@.len() == i,
            forall|k: int|
                0 <= k < i ==> (#[trigger] clauses@[k])@ == clause_of_chunk(chunks@[k]),
        decreases chunks.len() - i,
    {
        let clause = Clause {
            id: chunks[i].chunk_id.clone(),
            page: #[verifier::truncate]
            (chunks[i].page_start as u32),
            text: chunks[i].text.clone(),
        };
        clauses.push(clause);
        i = i + 1;
    }
    assert(clauses@.map_values(|c: Clause| c@) == chunks@.map_values(
        |c: Chunk| clause_of_chunk(c),
    ));
    make_document(file_name, &titles, clauses)
}

/// The clause of a text at a place of a case.
pub open spec fn case_clause(texts: Seq<Seq<char>>, i: int) -> crate::schema::ClauseView {
    crate::schema::ClauseView {
        id: "case_"@ + crate::number::decimal_text(i as nat),
        page: 1,
        text: texts[i],
    }
}

/// The document of some texts, each a clause of its own on page 1.
pub fn build_doc(file_name: &str, chapters: &Vec<String>, texts: Vec<String>) -> (doc:
    ParsedDocument)
    ensures
        doc@ == document_of(
            file_name@,
            crate::text::texts(chapters@),
            Seq::new(texts@.len(), |i: int| case_clause(crate::text::texts(texts@), i)),
        ),
{
    let ghost all = crate::text::texts(texts@);
    let mut clauses: Vec<Clause> = Vec::new();
    let mut i: usize = 0;
    while i < texts.len()
        invariant
            i <= texts.len(),
            all == crate::text::texts(texts@),
            clauses@.len() == i,
            forall|k: int| 0 <= k < i ==> (#[trigger] clauses@[k])@ == case_clause(all, k),
        decreases texts.len() - i,
    {
        let number = decimal(i as u64);
        let mut id = "case_".to_owned();
        id.append(number.as_str());
        clauses.push(Clause { id, page: 1, text: texts[i].clone() });
        i = i + 1;
    }
    assert(clauses@.map_values(|c: Clause| c@) == Seq::new(
        texts@.len(),
        |i: int| case_clause(all, i),
    ));
    make_document(file_name, chapters, clauses)
}

// ── Laws ──

/// Titles are collected section by section: the title of a section, if it has one, and then those
/// of the sections in it.
pub proof fn titles_are_collected_section_by_section(a: Seq<Section>, b: Seq<Section>)
    ensures
        list_titles(a + b) == list_titles(a) + list_titles(b),
        a.len() == 0 ==> list_titles(a).len() == 0,
        a.len() == 1 && a[0].title@.len() == 0 ==> list_titles(a) == list_titles(a[0].children@),
        a.len() == 1 && a[0].title@.len() > 0 ==> list_titles(a) == seq![a[0].title@] + list_titles(
            a[0].children@,
        ),
        a.len() == 1 ==> section_titles(a[0]) == list_titles(a),
    decreases b.len(),
{
    if b.len() == 0 {
        assert(a + b =~= a);
        assert(list_titles(a) + list_titles(b) =~= list_titles(a));
    } else {
        assert((a + b).drop_last() =~= a + b.drop_last());
        assert((a + b).last() == b.last());
        titles_are_collected_section_by_section(a, b.drop_last());
        assert(list_titles(a) + list_titles(b.drop_last()) + section_titles(b.last())
            =~= list_titles(a) + (list_titles(b.drop_last()) + section_titles(b.last())));
    }
    if a.len() == 1 {
        assert(a.drop_last() =~= Seq::<Section>::empty());
        assert(list_titles(a.drop_last()) =~= Seq::<Seq<char>>::empty());
        assert(list_titles(a) =~= section_titles(a[0]));
        if a[0].title@.len() == 0 {
            assert(list_titles(a) =~= list_titles(a[0].children@));
        }
    }
}

/// The title of every section is a chapter, however deep the section stands, unless it is empty.
pub proof fn every_title_is_a_chapter(sections: Seq<Section>, i: int, c: int)
    requires
        0 <= i < sections.len(),
    ensures
        sections[i].title@.len() > 0 ==> list_titles(sections).contains(sections[i].title@),
        0 <= c < list_titles(sections[i].children@).len() ==> list_titles(sections).contains(
            list_titles(sections[i].children@)[c],
        ),
{
    let (before, here, after) = (sections.take(i), seq![sections[i]], sections.skip(i + 1));
    assert(sections =~= before + here + after);
    titles_are_collected_section_by_section(before + here, after);
    titles_are_collected_section_by_section(before, here);
    titles_are_collected_section_by_section(here, after);
    let n = list_titles(before).len();
    let all = list_titles(sections);
    let deep = list_titles(sections[i].children@);
    if sections[i].title@.len() > 0 {
        assert(all[n as int] == sections[i].title@);
        if 0 <= c < deep.len() {
            assert(all[n + 1 + c] == deep[c]);
        }
    } else if 0 <= c < deep.len() {
        assert(all[n + c] == deep[c]);
    }
}

/// A document has the name, the chapters and the clauses that it is made of, and the metrics of all
/// its clauses.
pub proof fn a_document_has_what_it_is_made_of(
    file_name: Seq<char>,
    chapters: Seq<Seq<char>>,
    clauses: Seq<crate::schema::ClauseView>,
)
    ensures
        document_of(file_name, chapters, clauses).file_name == file_name,
        document_of(file_name, chapters, clauses).chapters == chapters,
        document_of(file_name, chapters, clauses).clauses == clauses,
        document_of(file_name, chapters, clauses).metrics == crate::metrics::metrics_of(
            crate::metrics::lines(Seq::new(clauses.len(), |i: int| clauses[i].text)),
        ),
{
    assert(clauses.map_values(|c: crate::schema::ClauseView| c.text) =~= Seq::new(
        clauses.len(),
        |i: int| clauses[i].text,
    ));
}

/// A piece becomes a clause with its id, its text and its page.
pub proof fn a_piece_becomes_a_clause(chunk: Chunk)
    ensures
        clause_of_chunk(chunk).id == chunk.chunk_id@,
        clause_of_chunk(chunk).text == chunk.text@,
        chunk.page_start <= u32::MAX ==> clause_of_chunk(chunk).page == chunk.page_start,
{
}

/// The texts of a case become clauses on page 1, with ids that count from zero and never repeat.
pub proof fn the_texts_of_a_case_become_clauses(texts: Seq<Seq<char>>, i: int, j: int)
    requires
        0 <= i < j < texts.len(),
    ensures
        case_clause(texts, i).text == texts[i],
        case_clause(texts, i).page == 1,
        case_clause(texts, i).id == "case_"@ + crate::number::decimal_text(i as nat),
        case_clause(texts, i).id != case_clause(texts, j).id,
{
    let (a, b) = (crate::number::decimal_text(i as nat), crate::number::decimal_text(j as nat));
    let head = "case_"@;
    if head + a == head + b {
        assert((head + a).skip(head.len() as int) =~= a);
        assert((head + b).skip(head.len() as int) =~= b);
        crate::number::decimal_text_is_injective(i as nat, j as nat);
    }
}

} // verus!
