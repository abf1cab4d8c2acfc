//! Looking things up in a document: its blocks by their ids, and its pieces by their meaning.

use crate::sections::{RawBlock, RawPage};
use crate::text::{listed, split, take_chars, trim};
use vstd::prelude::*;

verus! {

/// A search in a document.
#[derive(Debug)]
pub struct SearchRequest {
    pub queries: Vec<String>,
    pub top_k: Option<usize>,
}

/// A query for blocks: their ids with commas between them.
#[derive(Debug)]
pub struct BlockQuery {
    pub ids: String,
}

/// How many hits a search gives for each query.
pub fn hits_wanted(req: &SearchRequest) -> (count: usize)
    ensures
        count == (match req.top_k {
            Some(n) => n,
            None => 5,
        }),
{
    match req.top_k {
        Some(n) => n,
        None => 5,
    }
}

/// The part of a hit that is shown.
pub fn snippet_of(text: &str) -> (snippet: String)
    ensures
        snippet@ == crate::text::first_chars(text@, 200),
{
    take_chars(text, 200)
}

/// A hit as the user sees it.
#[derive(Debug)]
pub struct ShownHit {
    pub title: String,
    pub snippet: String,
}

/// Whether restoring a text can give a string.
pub open spec fn restores_to<F: Fn(&str) -> String>(
    restore: F,
    text: Seq<char>,
    after: String,
) -> bool {
    exists|s: &str| s@ == text && #[trigger] call_ensures(restore, (s,), after)
}

/// A hit as the user sees it: its title and the part of it that is shown, both restored. The text
/// is cut before it is restored.
pub fn show_hit<F: Fn(&str) -> String>(title: &str, text: &str, restore: &F) -> (shown: ShownHit)
    requires
        forall|s: &str| call_requires(*restore, (s,)),
    ensures
        call_ensures(*restore, (title,), shown.title),
        restores_to(*restore, crate::text::first_chars(text@, 200), shown.snippet),
{
    let title = restore(title);
    let part = snippet_of(text);
    let snippet = restore(part.as_str());
    ShownHit { title, snippet }
}

/// The ids of a query, without white space around them.
pub open spec fn ids_of_query(ids: Seq<char>) -> Seq<Seq<char>> {
    crate::text::pieces(ids, ',').map_values(|t: Seq<char>| crate::text::trimmed(t))
}

/// The ids of a query, without white space around them.
pub fn requested_ids(query: &BlockQuery) -> (ids: Vec<String>)
    ensures
        crate::text::texts(ids@) == ids_of_query(query.ids@),
{
    let list = split(query.ids.as_str(), ',');
    let ghost expected = ids_of_query(query.ids@);
    let mut ids: Vec<String> = Vec::new();
    let mut i: usize = 0;
    while i < list.len()
        invariant
            i <= list.len(),
            crate::text::texts(list@) == crate::text::pieces(query.ids@, ','),
            expected == ids_of_query(query.ids@),
            ids@.len() == i,
            forall|k: int| 0 <= k < i ==> (#[trigger] ids@[k])@ == expected[k],
        decreases list.len() - i,
    {
        let id = trim(list[i].as_str());
        assert(crate::text::texts(list@)[i as int] == list@[i as int]@);
        ids.push(id);
        i = i + 1;
    }
    assert(crate::text::texts(list@).len() == list@.len());
    assert(crate::text::texts(ids@) == expected);
    ids
}

/// The places of the blocks of a page with one of the ids, among its first `n`.
pub open spec fn places_on_page(
    blocks: Seq<RawBlock>,
    ids: Seq<Seq<char>>,
    page: int,
    n: int,
) -> Seq<(int, int)>
    decreases n,
{
    if n <= 0 {
        Seq::empty()
    } else {
        let before = places_on_page(blocks, ids, page, n - 1);
        if ids.contains(blocks[n - 1].id@) {
            before.push((page, n - 1))
        } else {
            before
        }
    }
}

/// The places of the blocks with one of the ids, on the first `n` pages: which page, and which
/// block of it.
pub open spec fn places_of(pages: Seq<RawPage>, ids: Seq<Seq<char>>, n: int) -> Seq<(int, int)>
    decreases n,
{
    if n <= 0 {
        Seq::empty()
    } else {
        places_of(pages, ids, n - 1) + places_on_page(
            pages[n - 1].blocks@,
            ids,
            n - 1,
            pages[n - 1].blocks@.len() as int,
        )
    }
}

/// The models of a list of places.
pub open spec fn place_views(places: Seq<(usize, usize)>) -> Seq<(int, int)> {
    places.map_values(|p: (usize, usize)| (p.0 as int, p.1 as int))
}

/// The places of the blocks with one of the ids, page by page.
pub fn find_blocks(pages: &Vec<RawPage>, ids: &Vec<String>) -> (places: Vec<(usize, usize)>)
    ensures
        place_views(places@) == places_of(
            pages@,
            crate::text::texts(ids@),
            pages@.len() as int,
        ),
{
    let ghost wanted = crate::text::texts(ids@);
    let mut places: Vec<(usize, usize)> = Vec::new();
    let mut i: usize = 0;
    assert(place_views(places@) == places_of(pages@, wanted, 0));
    while i < pages.len()
        invariant
            i <= pages.len(),
            wanted == crate::text::texts(ids@),
            place_views(places@) == places_of(pages@, wanted, i as int),
        decreases pages.len() - i,
    {
        let blocks = &pages[i].blocks;
        let ghost before = place_views(places@);
        let mut k: usize = 0;
        assert(before + places_on_page(blocks@, wanted, i as int, 0) == before);
        while k < blocks.len()
            invariant
                k <= blocks.len(),
                wanted == crate::text::texts(ids@),
                place_views(places@) == before + places_on_page(
                    blocks@,
                    wanted,
                    i as int,
                    k as int,
                ),
            decreases blocks.len() - k,
        {
            if listed(ids, blocks[k].id.as_str()) {
                let ghost some = places@;
                places.push((i, k));
                assert(place_views(places@) == place_views(some).push((i as int, k as int)));
            }
            assert(place_views(places@) == before + places_on_page(
                blocks@,
                wanted,
                i as int,
                k + 1,
            ));
            k = k + 1;
        }
        i = i + 1;
    }
    places
}

// ── Laws ──

/// A block of a page is found exactly if its id is one of the ids.
proof fn lemma_on_page(
    blocks: Seq<RawBlock>,
    ids: Seq<Seq<char>>,
    page: int,
    n: int,
    p: int,
    k: int,
)
    requires
        0 <= n <= blocks.len(),
    ensures
        places_on_page(blocks, ids, page, n).contains((p, k)) <==> p == page && 0 <= k < n
            && ids.contains(blocks[k].id@),
    decreases n,
{
    let all = places_on_page(blocks, ids, page, n);
    if n > 0 {
        let before = places_on_page(blocks, ids, page, n - 1);
        lemma_on_page(blocks, ids, page, n - 1, p, k);
        if all.contains((p, k)) {
            let i = choose|i: int| 0 <= i < all.len() && all[i] == (p, k);
            if i < before.len() {
                assert(before[i] == (p, k));
            }
        }
        if before.contains((p, k)) {
            let i = choose|i: int| 0 <= i < before.len() && before[i] == (p, k);
            assert(all[i] == (p, k));
        }
        if p == page && k == n - 1 && ids.contains(blocks[k].id@) {
            assert(all.last() == (p, k));
        }
    }
}

/// A block is found exactly if its id is one of the ids.
pub proof fn a_block_is_found_by_its_id(
    pages: Seq<RawPage>,
    ids: Seq<Seq<char>>,
    n: int,
    p: int,
    k: int,
)
    requires
        0 <= n <= pages.len(),
    ensures
        places_of(pages, ids, n).contains((p, k)) <==> 0 <= p < n && 0 <= k
            < pages[p].blocks@.len() && ids.contains(pages[p].blocks@[k].id@),
    decreases n,
{
    let all = places_of(pages, ids, n);
    if n > 0 {
        let before = places_of(pages, ids, n - 1);
        let size = pages[n - 1].blocks@.len() as int;
        let here = places_on_page(pages[n - 1].blocks@, ids, n - 1, size);
        a_block_is_found_by_its_id(pages, ids, n - 1, p, k);
        lemma_on_page(pages[n - 1].blocks@, ids, n - 1, size, p, k);
        if all.contains((p, k)) {
            let i = choose|i: int| 0 <= i < all.len() && all[i] == (p, k);
            if i < before.len() {
                assert(before[i] == (p, k));
            } else {
                assert(here[i - before.len()] == (p, k));
            }
        }
        if before.contains((p, k)) {
            let i = choose|i: int| 0 <= i < before.len() && before[i] == (p, k);
            assert(all[i] == (p, k));
        }
        if here.contains((p, k)) {
            let i = choose|i: int| 0 <= i < here.len() && here[i] == (p, k);
            assert(all[before.len() + i] == (p, k));
        }
    }
}

/// The ids of a query stand between its commas, each without the white space around it.
pub proof fn ids_stand_between_commas(a: Seq<char>, b: Seq<char>)
    ensures
        ids_of_query(a.push(',') + b) == ids_of_query(a) + ids_of_query(b),
        !a.contains(',') ==> ids_of_query(a) == seq![crate::text::trimmed(a)],
{
    crate::text::a_text_is_split_at_each_separator(a, b, ',');
    let trim = |t: Seq<char>| crate::text::trimmed(t);
    assert((crate::text::pieces(a, ',') + crate::text::pieces(b, ',')).map_values(trim)
        =~= ids_of_query(a) + ids_of_query(b));
    assert(seq![a].map_values(trim) =~= seq![crate::text::trimmed(a)]);
}

/// The places on a page go up.
proof fn lemma_page_goes_up(
    blocks: Seq<RawBlock>,
    ids: Seq<Seq<char>>,
    page: int,
    n: int,
    i: int,
    j: int,
)
    requires
        0 <= i <= j < places_on_page(blocks, ids, page, n).len(),
    ensures
        places_on_page(blocks, ids, page, n)[i].0 == page,
        places_on_page(blocks, ids, page, n)[j].1 < n,
        i < j ==> places_on_page(blocks, ids, page, n)[i].1 < places_on_page(
            blocks,
            ids,
            page,
            n,
        )[j].1,
    decreases n,
{
    let before = places_on_page(blocks, ids, page, n - 1);
    if j < before.len() {
        lemma_page_goes_up(blocks, ids, page, n - 1, i, j);
    } else if i < before.len() {
        lemma_page_goes_up(blocks, ids, page, n - 1, i, i);
    }
}

/// The blocks that are found come page by page, and on a page from the first to the last, each once.
pub proof fn found_blocks_come_in_order(
    pages: Seq<RawPage>,
    ids: Seq<Seq<char>>,
    n: int,
    i: int,
    j: int,
)
    requires
        0 <= i < j < places_of(pages, ids, n).len(),
    ensures
        ({
            let (a, b) = (places_of(pages, ids, n)[i], places_of(pages, ids, n)[j]);
            a.0 < b.0 || (a.0 == b.0 && a.1 < b.1)
        }),
    decreases n,
{
    let before = places_of(pages, ids, n - 1);
    let blocks = pages[n - 1].blocks@;
    let m = before.len();
    if j < m {
        found_blocks_come_in_order(pages, ids, n - 1, i, j);
    } else {
        lemma_page_goes_up(blocks, ids, n - 1, blocks.len() as int, j - m, j - m);
        if i < m {
            lemma_pages_below(pages, ids, n - 1, i);
        } else {
            lemma_page_goes_up(blocks, ids, n - 1, blocks.len() as int, i - m, j - m);
        }
    }
}

/// The places on the first pages are on those pages.
proof fn lemma_pages_below(pages: Seq<RawPage>, ids: Seq<Seq<char>>, n: int, i: int)
    requires
        0 <= i < places_of(pages, ids, n).len(),
    ensures
        places_of(pages, ids, n)[i].0 < n,
    decreases n,
{
    let before = places_of(pages, ids, n - 1);
    let blocks = pages[n - 1].blocks@;
    if i < before.len() {
        lemma_pages_below(pages, ids, n - 1, i);
    } else {
        lemma_page_goes_up(
            blocks,
            ids,
            n - 1,
            blocks.len() as int,
            i - before.len(),
            i - before.len(),
        );
    }
}

/// Places are modelled one by one, by the page and by the block.
pub proof fn places_are_their_numbers(places: Seq<(usize, usize)>, i: int)
    requires
        0 <= i < places.len(),
    ensures
        place_views(places).len() == places.len(),
        place_views(places)[i].0 == places[i].0,
        place_views(places)[i].1 == places[i].1,
{
}

} // verus!
