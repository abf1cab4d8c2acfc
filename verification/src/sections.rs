//! The sections of a document, and the blocks of text that belong to none of them.
//!
//! Blocks without a section are not lost: those of neighbouring pages are put together into a
//! section of their own.

use crate::number::decimal;
use crate::text::{join, listed, same_text};
use vstd::prelude::*;

verus! {

// ── Pages and sections ──

/// A block of text.
#[derive(Debug, Clone)]
pub struct RawBlock {
    pub id: String,
    pub text: String,
}

/// A page with its blocks. The first page has the index 0.
#[derive(Debug, Clone)]
pub struct RawPage {
    pub page_index: usize,
    pub blocks: Vec<RawBlock>,
}

/// A section, with the sections in it.
#[derive(Debug)]
pub struct Section {
    pub level: usize,
    pub title: String,
    pub pattern: String,
    pub page_start: usize,
    pub page_end: usize,
    pub block_ids: Vec<String>,
    pub body_text: String,
    pub children: Vec<Section>,
    pub body_page_start: usize,
    pub body_page_end: usize,
}

/// The ids of the blocks of a section and of the sections in it.
pub open spec fn section_ids(section: Section) -> Seq<Seq<char>>
    decreases section,
{
    crate::text::texts(section.block_ids@) + list_ids(section.children@)
}

/// The ids of the blocks of some sections and of the sections in them.
pub open spec fn list_ids(sections: Seq<Section>) -> Seq<Seq<char>>
    decreases sections,
{
    if sections.len() == 0 {
        Seq::empty()
    } else {
        list_ids(sections.drop_last()) + section_ids(sections.last())
    }
}

/// The ids of the blocks of a section and of the sections in it.
pub fn collect_all_block_ids(section: &Section) -> (ids: Vec<String>)
    ensures
        crate::text::texts(ids@) == section_ids(*section),
    decreases section,
{
    let mut ids = section.block_ids.clone();
    let mut more = collect_list_ids(&section.children);
    let ghost own = ids@;
    let ghost found = more@;
    ids.append(&mut more);
    assert(crate::text::texts(ids@) == crate::text::texts(own) + crate::text::texts(found));
    ids
}

/// The ids of the blocks of some sections and of the sections in them.
pub fn collect_list_ids(sections: &Vec<Section>) -> (ids: Vec<String>)
    ensures
        crate::text::texts(ids@) == list_ids(sections@),
    decreases sections,
{
    let mut ids: Vec<String> = Vec::new();
    let mut i: usize = 0;
    assert(crate::text::texts(ids@) == list_ids(sections@.take(0)));
    while i < sections.len()
        invariant
            i <= sections.len(),
            crate::text::texts(ids@) == list_ids(sections@.take(i as int)),
        decreases sections.len() - i,
    {
        let mut more = collect_all_block_ids(&sections[i]);
        assert(sections@.take(i + 1).drop_last() == sections@.take(i as int));
        assert(sections@.take(i + 1).last() == sections@[i as int]);
        let ghost before = ids@;
        let ghost found = more@;
        ids.append(&mut more);
        assert(crate::text::texts(ids@) == crate::text::texts(before) + crate::text::texts(found));
        i = i + 1;
    }
    assert(sections@.take(i as int) == sections@);
    ids
}

// ── Blocks without a section ──

/// A block with the index of its page.
struct Placed {
    page: usize,
    id: String,
    text: String,
}

/// The model of a block with the index of its page.
pub struct PlacedView {
    pub page: usize,
    pub id: Seq<char>,
    pub text: Seq<char>,
}

impl View for Placed {
    type V = PlacedView;

    closed spec fn view(&self) -> PlacedView {
        PlacedView { page: self.page, id: self.id@, text: self.text@ }
    }
}

/// The models of a list of blocks.
spec fn placed(list: Seq<Placed>) -> Seq<PlacedView> {
    list.map_values(|b: Placed| b@)
}

/// The blocks of a page.
pub open spec fn page_blocks(page: RawPage) -> Seq<PlacedView> {
    page.blocks@.map_values(
        |b: RawBlock| PlacedView { page: page.page_index, id: b.id@, text: b.text@ },
    )
}

/// The blocks of some pages, page by page.
pub open spec fn all_blocks(pages: Seq<RawPage>) -> Seq<PlacedView>
    decreases pages.len(),
{
    if pages.len() == 0 {
        Seq::empty()
    } else {
        all_blocks(pages.drop_last()) + page_blocks(pages.last())
    }
}

/// The page of the block with an id. If an id comes more than once, its last page counts.
pub open spec fn page_of(blocks: Seq<PlacedView>, id: Seq<char>) -> Option<usize>
    decreases blocks.len(),
{
    if blocks.len() == 0 {
        None
    } else if blocks.last().id == id {
        Some(blocks.last().page)
    } else {
        page_of(blocks.drop_last(), id)
    }
}

/// A block on the page that counts for its id.
pub open spec fn settled(blocks: Seq<PlacedView>, b: PlacedView) -> PlacedView {
    PlacedView {
        page: match page_of(blocks, b.id) {
            Some(page) => page,
            None => b.page,
        },
        id: b.id,
        text: b.text,
    }
}

/// The blocks whose ids are not among the assigned ones.
pub open spec fn orphan_blocks(blocks: Seq<PlacedView>, assigned: Seq<Seq<char>>) -> Seq<
    PlacedView,
> {
    blocks.filter(|b: PlacedView| !assigned.contains(b.id)).map_values(
        |b: PlacedView| settled(blocks, b),
    )
}

/// The blocks of a list that are on a page.
pub open spec fn on_page(list: Seq<PlacedView>, page: int) -> Seq<PlacedView> {
    list.filter(|b: PlacedView| b.page == page)
}

/// Whether a page has a block of a list.
pub open spec fn is_occupied(list: Seq<PlacedView>, page: int) -> bool {
    exists|i: int| 0 <= i < list.len() && (#[trigger] list[i]).page == page
}

/// The runs of neighbouring occupied pages below page `n`: the first and the last page of each.
pub open spec fn runs_below(list: Seq<PlacedView>, n: int) -> Seq<(int, int)>
    decreases n,
{
    if n <= 0 {
        Seq::empty()
    } else {
        let before = runs_below(list, n - 1);
        if !is_occupied(list, n - 1) {
            before
        } else if before.len() > 0 && before.last().1 == n - 2 {
            before.drop_last().push((before.last().0, n - 1))
        } else {
            before.push((n - 1, n - 1))
        }
    }
}

/// The runs of neighbouring occupied pages.
pub open spec fn page_runs(list: Seq<PlacedView>) -> Seq<(int, int)> {
    runs_below(list, usize::MAX + 1)
}

/// The blocks on the pages of a run, page by page.
pub open spec fn run_blocks(list: Seq<PlacedView>, first: int, last: int) -> Seq<PlacedView>
    decreases last - first + 1,
{
    if last < first {
        Seq::empty()
    } else {
        run_blocks(list, first, last - 1) + on_page(list, last)
    }
}

/// Whether a section is the one for the blocks of a list on a run of pages.
pub open spec fn is_orphan_section(
    section: Section,
    list: Seq<PlacedView>,
    first: int,
    last: int,
) -> bool {
    let blocks = run_blocks(list, first, last);
    &&& section.level == 0
    &&& section.title@ == "未归类内容 (第"@ + crate::number::decimal_text((first + 1) as nat)
        + "-"@ + crate::number::decimal_text((last + 1) as nat) + "页)"@
    &&& section.pattern@ == "orphan"@
    &&& section.page_start == first
    &&& section.page_end == last
    &&& crate::text::texts(section.block_ids@) == blocks.map_values(|b: PlacedView| b.id)
    &&& section.body_text@ == crate::text::joined(
        blocks.map_values(|b: PlacedView| b.text),
        "\n"@,
    )
    &&& section.children@ == Seq::<Section>::empty()
    &&& section.body_page_start == first
    &&& section.body_page_end == last
}

/// Whether some sections are those for the blocks of a list, one for each run of pages.
pub open spec fn are_orphan_sections(sections: Seq<Section>, list: Seq<PlacedView>) -> bool {
    &&& sections.len() == page_runs(list).len()
    &&& forall|i: int|
        0 <= i < sections.len() ==> is_orphan_section(
            #[trigger] sections[i],
            list,
            page_runs(list)[i].0,
            page_runs(list)[i].1,
        )
}

/// The blocks of some pages.
fn place_blocks(pages: &Vec<RawPage>) -> (blocks: Vec<Placed>)
    ensures
        placed(blocks@) == all_blocks(pages@),
{
    let mut blocks: Vec<Placed> = Vec::new();
    let mut i: usize = 0;
    assert(placed(blocks@) == all_blocks(pages@.take(0)));
    while i < pages.len()
        invariant
            i <= pages.len(),
            placed(blocks@) == all_blocks(pages@.take(i as int)),
        decreases pages.len() - i,
    {
        let page = &pages[i];
        let ghost own = page_blocks(*page);
        let ghost before = placed(blocks@);
        let mut k: usize = 0;
        assert(before + own.take(0) == before);
        while k < page.blocks.len()
            invariant
                k <= page.blocks.len(),
                own == page_blocks(*page),
                placed(blocks@) == before + own.take(k as int),
            decreases page.blocks.len() - k,
        {
            let block = Placed {
                page: page.page_index,
                id: page.blocks[k].id.clone(),
                text: page.blocks[k].text.clone(),
            };
            let ghost some = blocks@;
            blocks.push(block);
            assert(placed(blocks@) == placed(some).push(block@));
            assert(block@ == own[k as int]);
            assert(own.take(k + 1) == own.take(k as int).push(own[k as int]));
            assert(before + own.take(k + 1) == (before + own.take(k as int)).push(own[k as int]));
            k = k + 1;
        }
        assert(own.take(k as int) == own);
        assert(pages@.take(i + 1).drop_last() == pages@.take(i as int));
        assert(pages@.take(i + 1).last() == *page);
        i = i + 1;
    }
    assert(pages@.take(i as int) == pages@);
    blocks
}

/// The page of the block with an id.
fn find_page(blocks: &Vec<Placed>, id: &str) -> (page: Option<usize>)
    ensures
        page == page_of(placed(blocks@), id@),
{
    let ghost all = placed(blocks@);
    let mut n: usize = blocks.len();
    assert(all.take(n as int) == all);
    while n > 0
        invariant
            n <= blocks.len(),
            all == placed(blocks@),
            page_of(all, id@) == page_of(all.take(n as int), id@),
        decreases n,
    {
        assert(all.take(n as int).last() == blocks@[n - 1]@);
        assert(all.take(n as int).drop_last() == all.take(n - 1));
        if same_text(blocks[n - 1].id.as_str(), id) {
            return Some(blocks[n - 1].page);
        }
        n = n - 1;
    }
    None
}

/// The blocks whose ids are not among the assigned ones.
fn find_orphans(blocks: &Vec<Placed>, assigned: &Vec<String>) -> (orphans: Vec<Placed>)
    ensures
        placed(orphans@) == orphan_blocks(placed(blocks@), crate::text::texts(assigned@)),
{
    let ghost all = placed(blocks@);
    let ghost ids = crate::text::texts(assigned@);
    let ghost keep = |b: PlacedView| !ids.contains(b.id);
    let ghost settle = |b: PlacedView| settled(all, b);
    let mut orphans: Vec<Placed> = Vec::new();
    let mut i: usize = 0;
    assert(placed(orphans@) == all.take(0).filter(keep).map_values(settle)) by {
        reveal(Seq::filter);
    }
    while i < blocks.len()
        invariant
            i <= blocks.len(),
            all == placed(blocks@),
            ids == crate::text::texts(assigned@),
            keep == (|b: PlacedView| !ids.contains(b.id)),
            settle == (|b: PlacedView| settled(all, b)),
            placed(orphans@) == all.take(i as int).filter(keep).map_values(settle),
        decreases blocks.len() - i,
    {
        let b = &blocks[i];
        assert(all[i as int] == b@);
        let ghost kept = all.take(i as int).filter(keep);
        proof {
            crate::lists::lemma_filter_step(all, i as int, keep);
        }
        if !listed(assigned, b.id.as_str()) {
            let page = match find_page(blocks, b.id.as_str()) {
                Some(p) => p,
                None => b.page,
            };
            let orphan = Placed { page, id: b.id.clone(), text: b.text.clone() };
            let ghost before = orphans@;
            orphans.push(orphan);
            assert(placed(orphans@) == placed(before).push(orphan@));
            assert(kept.push(b@).map_values(settle) == kept.map_values(settle).push(settle(b@)));
        }
        i = i + 1;
    }
    assert(all.take(i as int) == all);
    orphans
}

/// Whether a list of pages goes up.
spec fn goes_up(pages: Seq<usize>) -> bool {
    forall|i: int, j: int|
        0 <= i < j < pages.len() ==> (#[trigger] pages[i]) < (#[trigger] pages[j])
}

/// Puts a page in its place.
fn insert_page(pages: &mut Vec<usize>, page: usize)
    requires
        goes_up(old(pages)@),
    ensures
        goes_up(final(pages)@),
        forall|p: usize|
            #[trigger] final(pages)@.contains(p) <==> old(pages)@.contains(p) || p == page,
{
    let mut k: usize = 0;
    while k < pages.len() && pages[k] < page
        invariant
            k <= pages.len(),
            pages@ == old(pages)@,
            forall|i: int| 0 <= i < k ==> #[trigger] pages@[i] < page,
        decreases pages.len() - k,
    {
        k = k + 1;
    }
    if k < pages.len() && pages[k] == page {
        assert(pages@[k as int] == page);
        return ;
    }
    let ghost before = pages@;
    pages.insert(k, page);
    proof {
        let after = pages@;
        assert(after == before.insert(k as int, page));
        assert(after[k as int] == page);
        assert forall|p: usize| #[trigger] after.contains(p) <==> before.contains(p) || p
            == page by {
            if after.contains(p) {
                let i = choose|i: int| 0 <= i < after.len() && after[i] == p;
                if i < k {
                    assert(before[i] == p);
                } else if i > k {
                    assert(before[i - 1] == p);
                }
            }
            if before.contains(p) {
                let i = choose|i: int| 0 <= i < before.len() && before[i] == p;
                if i < k {
                    assert(after[i] == p);
                } else {
                    assert(after[i + 1] == p);
                }
            }
        }
    }
}

/// The pages of some blocks, in order, each once.
fn pages_of(list: &Vec<Placed>) -> (pages: Vec<usize>)
    ensures
        goes_up(pages@),
        forall|p: usize|
            #[trigger] pages@.contains(p) <==> is_occupied(placed(list@), p as int),
{
    let ghost all = placed(list@);
    let mut pages: Vec<usize> = Vec::new();
    let mut i: usize = 0;
    while i < list.len()
        invariant
            i <= list.len(),
            all == placed(list@),
            goes_up(pages@),
            forall|p: usize|
                #[trigger] pages@.contains(p) <==> is_occupied(all.take(i as int), p as int),
        decreases list.len() - i,
    {
        insert_page(&mut pages, list[i].page);
        assert(all[i as int].page == list@[i as int].page);
        assert forall|p: usize| #[trigger] pages@.contains(p) <==> is_occupied(
            all.take(i + 1),
            p as int,
        ) by {
            if is_occupied(all.take(i + 1), p as int) {
                let k = choose|k: int|
                    0 <= k < all.take(i + 1).len() && (#[trigger] all.take(i + 1)[k]).page == p;
                if k < i {
                    assert(all.take(i as int)[k].page == p);
                }
            }
            if is_occupied(all.take(i as int), p as int) {
                let k = choose|k: int|
                    0 <= k < all.take(i as int).len() && (#[trigger] all.take(i as int)[k]).page
                        == p;
                assert(all.take(i + 1)[k].page == p);
            }
            assert(all.take(i + 1)[i as int].page == list@[i as int].page);
        }
        i = i + 1;
    }
    assert(all.take(i as int) == all);
    pages
}

/// Pages that are not occupied change no run.
proof fn lemma_gap(list: Seq<PlacedView>, m: int, n: int)
    requires
        m <= n,
        forall|p: int| m <= p < n ==> !#[trigger] is_occupied(list, p),
    ensures
        runs_below(list, n) == runs_below(list, m),
    decreases n - m,
{
    if m < n && n > 0 {
        assert(!is_occupied(list, n - 1));
        lemma_gap(list, m, n - 1);
    }
}

/// The models of a list of runs.
spec fn run_views(runs: Seq<(usize, usize)>) -> Seq<(int, int)> {
    runs.map_values(|r: (usize, usize)| (r.0 as int, r.1 as int))
}

/// The runs of neighbouring pages.
fn find_runs(list: &Vec<Placed>) -> (runs: Vec<(usize, usize)>)
    ensures
        run_views(runs@) == page_runs(placed(list@)),
{
    let ghost all = placed(list@);
    let pages = pages_of(list);
    let mut runs: Vec<(usize, usize)> = Vec::new();
    let mut i: usize = 0;
    assert(run_views(runs@) == runs_below(all, 0));
    while i < pages.len()
        invariant
            i <= pages.len(),
            all == placed(list@),
            goes_up(pages@),
            forall|p: usize| #[trigger] pages@.contains(p) <==> is_occupied(all, p as int),
            run_views(runs@) == runs_below(
                all,
                if i == 0 {
                    0
                } else {
                    pages@[i - 1] + 1
                },
            ),
        decreases pages.len() - i,
    {
        let p = pages[i];
        proof {
            let m: int = if i == 0 {
                0
            } else {
                pages@[i - 1] + 1
            };
            if i > 0 {
                assert(pages@[i - 1] < pages@[i as int]);
            }
            assert forall|q: int| m <= q < p implies !#[trigger] is_occupied(all, q) by {
                if is_occupied(all, q) {
                    assert(pages@.contains(q as usize));
                    let k = choose|k: int| 0 <= k < pages@.len() && pages@[k] == q;
                    if k < i {
                        if k < i - 1 {
                            assert(pages@[k] < pages@[i - 1]);
                        }
                    } else if k > i {
                        assert(pages@[i as int] < pages@[k]);
                    }
                }
            }
            lemma_gap(all, m, p as int);
            assert(pages@.contains(p));
        }
        let ghost before = runs@;
        let ghost models = run_views(before);
        if runs.len() > 0 && p > 0 && runs[runs.len() - 1].1 == p - 1 {
            let last = runs[runs.len() - 1];
            assert(models.last() == (last.0 as int, last.1 as int));
            let n = runs.len() - 1;
            runs.set(n, (last.0, p));
            assert(run_views(runs@) == models.drop_last().push((last.0 as int, p as int)));
        } else {
            assert(before.len() > 0 ==> models.last().1 == before.last().1);
            runs.push((p, p));
            assert(run_views(runs@) == models.push((p as int, p as int)));
        }
        i = i + 1;
    }
    proof {
        let m: int = if i == 0 {
            0
        } else {
            pages@[i - 1] + 1
        };
        assert forall|q: int| m <= q < usize::MAX + 1 implies !#[trigger] is_occupied(all, q) by {
            if is_occupied(all, q) {
                assert(pages@.contains(q as usize));
                let k = choose|k: int| 0 <= k < pages@.len() && pages@[k] == q;
                if k < i - 1 {
                    assert(pages@[k] < pages@[i - 1]);
                }
            }
        }
        lemma_gap(all, m, usize::MAX + 1);
    }
    runs
}

/// The blocks on the pages of a run.
fn collect_run(list: &Vec<Placed>, first: usize, last: usize) -> (found: (Vec<String>, Vec<String>))
    requires
        first <= last < usize::MAX,
    ensures
        crate::text::texts(found.0@) == run_blocks(
            placed(list@),
            first as int,
            last as int,
        ).map_values(|b: PlacedView| b.id),
        crate::text::texts(found.1@) == run_blocks(
            placed(list@),
            first as int,
            last as int,
        ).map_values(|b: PlacedView| b.text),
{
    let ghost all = placed(list@);
    let ghost id_of = |b: PlacedView| b.id;
    let ghost text_of = |b: PlacedView| b.text;
    let mut ids: Vec<String> = Vec::new();
    let mut bodies: Vec<String> = Vec::new();
    let mut p: usize = first;
    assert(run_blocks(all, first as int, first - 1) == Seq::<PlacedView>::empty());
    while p <= last
        invariant
            first <= p <= last + 1,
            last < usize::MAX,
            all == placed(list@),
            id_of == (|b: PlacedView| b.id),
            text_of == (|b: PlacedView| b.text),
            crate::text::texts(ids@) == run_blocks(all, first as int, p - 1).map_values(id_of),
            crate::text::texts(bodies@) == run_blocks(all, first as int, p - 1).map_values(
                text_of,
            ),
        decreases last + 1 - p,
    {
        let ghost before = run_blocks(all, first as int, p - 1);
        let ghost keep = |b: PlacedView| b.page == p;
        let mut i: usize = 0;
        assert(before + all.take(0).filter(keep) == before) by {
            reveal(Seq::filter);
        }
        while i < list.len()
            invariant
                i <= list.len(),
                all == placed(list@),
                id_of == (|b: PlacedView| b.id),
                text_of == (|b: PlacedView| b.text),
                keep == (|b: PlacedView| b.page == p),
                crate::text::texts(ids@) == (before + all.take(i as int).filter(
                    keep,
                )).map_values(id_of),
                crate::text::texts(bodies@) == (before + all.take(i as int).filter(
                    keep,
                )).map_values(text_of),
            decreases list.len() - i,
        {
            let b = &list[i];
            assert(all[i as int] == b@);
            let ghost kept = all.take(i as int).filter(keep);
            proof {
                crate::lists::lemma_filter_step(all, i as int, keep);
            }
            if b.page == p {
                let ghost some_ids = ids@;
                let ghost some_bodies = bodies@;
                let id = b.id.clone();
                let body = b.text.clone();
                ids.push(id);
                bodies.push(body);
                assert(crate::text::texts(ids@) == crate::text::texts(some_ids).push(id@));
                assert(crate::text::texts(bodies@) == crate::text::texts(some_bodies).push(
                    body@,
                ));
                assert(before + kept.push(b@) == (before + kept).push(b@));
                assert((before + kept).push(b@).map_values(id_of) == (before + kept).map_values(
                    id_of,
                ).push(id@));
                assert((before + kept).push(b@).map_values(text_of) == (before + kept).map_values(
                    text_of,
                ).push(body@));
            }
            i = i + 1;
        }
        assert(all.take(i as int) == all);
        assert(run_blocks(all, first as int, p as int) == before + on_page(all, p as int));
        p = p + 1;
    }
    (ids, bodies)
}

/// The section for the blocks on a run of pages.
fn orphan_section(list: &Vec<Placed>, first: usize, last: usize) -> (section: Section)
    requires
        first <= last < usize::MAX,
    ensures
        is_orphan_section(section, placed(list@), first as int, last as int),
{
    let found = collect_run(list, first, last);
    let from = decimal((first + 1) as u64);
    let to = decimal((last + 1) as u64);
    let mut title = "未归类内容 (第".to_owned();
    title.append(from.as_str());
    title.append("-");
    title.append(to.as_str());
    title.append("页)");
    let body_text = join(&found.1, "\n");
    Section {
        level: 0,
        title,
        pattern: "orphan".to_owned(),
        page_start: first,
        page_end: last,
        block_ids: found.0,
        body_text,
        children: Vec::new(),
        body_page_start: first,
        body_page_end: last,
    }
}

/// A run has its pages in order, and its last page is occupied.
proof fn lemma_run(list: Seq<PlacedView>, n: int, i: int)
    requires
        0 <= i < runs_below(list, n).len(),
    ensures
        0 <= runs_below(list, n)[i].0 <= runs_below(list, n)[i].1 < n,
        is_occupied(list, runs_below(list, n)[i].1),
    decreases n,
{
    let before = runs_below(list, n - 1);
    if i < before.len() {
        lemma_run(list, n - 1, i);
    }
}

/// The sections of a document with one more for each run of pages that has blocks without a
/// section.
pub fn add_orphan_sections(sections: Vec<Section>, pages: &Vec<RawPage>) -> (all: Vec<Section>)
    requires
        forall|i: int|
            0 <= i < orphan_blocks(all_blocks(pages@), list_ids(sections@)).len() ==> (
            #[trigger] orphan_blocks(all_blocks(pages@), list_ids(sections@))[i]).page
                < usize::MAX,
    ensures
        all@.len() >= sections@.len(),
        all@.take(sections@.len() as int) == sections@,
        are_orphan_sections(
            all@.skip(sections@.len() as int),
            orphan_blocks(all_blocks(pages@), list_ids(sections@)),
        ),
{
    let assigned = collect_list_ids(&sections);
    let blocks = place_blocks(pages);
    let orphans = find_orphans(&blocks, &assigned);
    let runs = find_runs(&orphans);
    let ghost given = sections@;
    let ghost list = placed(orphans@);
    let mut all = sections;
    let mut i: usize = 0;
    while i < runs.len()
        invariant
            i <= runs.len(),
            list == placed(orphans@),
            run_views(runs@) == page_runs(list),
            forall|k: int| 0 <= k < list.len() ==> (#[trigger] list[k]).page < usize::MAX,
            all@.len() == given.len() + i,
            all@.take(given.len() as int) == given,
            forall|k: int|
                0 <= k < i ==> is_orphan_section(
                    #[trigger] all@.skip(given.len() as int)[k],
                    list,
                    page_runs(list)[k].0,
                    page_runs(list)[k].1,
                ),
        decreases runs.len() - i,
    {
        let run = runs[i];
        proof {
            assert(page_runs(list)[i as int] == (run.0 as int, run.1 as int));
            lemma_run(list, usize::MAX + 1, i as int);
        }
        let ghost before = all@;
        let section = orphan_section(&orphans, run.0, run.1);
        all.push(section);
        assert(all@.take(given.len() as int) == before.take(given.len() as int));
        assert(all@.skip(given.len() as int) == before.skip(given.len() as int).push(section));
        i = i + 1;
    }
    all
}

// ── Laws ──

/// The runs of pages are apart from each other and in order.
pub proof fn page_runs_are_apart(list: Seq<PlacedView>, i: int, j: int)
    requires
        0 <= i < j < page_runs(list).len(),
    ensures
        page_runs(list)[i].0 <= page_runs(list)[i].1,
        page_runs(list)[i].1 + 1 < page_runs(list)[j].0,
        page_runs(list)[j].0 <= page_runs(list)[j].1,
{
    lemma_apart(list, usize::MAX + 1, i, j);
    lemma_run(list, usize::MAX + 1, i);
    lemma_run(list, usize::MAX + 1, j);
}

/// The runs below a page are apart from each other and in order.
proof fn lemma_apart(list: Seq<PlacedView>, n: int, i: int, j: int)
    requires
        0 <= i < j < runs_below(list, n).len(),
    ensures
        runs_below(list, n)[i].1 + 1 < runs_below(list, n)[j].0,
    decreases n,
{
    let before = runs_below(list, n - 1);
    if is_occupied(list, n - 1) {
        if j < before.len() {
            lemma_apart(list, n - 1, i, j);
        } else {
            lemma_run(list, n - 1, i);
            if i < before.len() - 1 {
                lemma_apart(list, n - 1, i, before.len() - 1);
                lemma_run(list, n - 1, before.len() - 1);
            }
        }
    } else {
        lemma_apart(list, n - 1, i, j);
    }
}

/// An occupied page lies in a run.
proof fn lemma_covered(list: Seq<PlacedView>, n: int, p: int) -> (i: int)
    requires
        0 <= p < n,
        is_occupied(list, p),
    ensures
        0 <= i < runs_below(list, n).len(),
        runs_below(list, n)[i].0 <= p <= runs_below(list, n)[i].1,
    decreases n,
{
    let before = runs_below(list, n - 1);
    if p < n - 1 {
        let i = lemma_covered(list, n - 1, p);
        i
    } else {
        if before.len() > 0 {
            lemma_run(list, n - 1, before.len() - 1);
        }
        runs_below(list, n).len() - 1
    }
}

/// A block on a page of a run stands among the blocks of the run.
proof fn lemma_in_run(list: Seq<PlacedView>, first: int, last: int, k: int)
    requires
        0 <= k < list.len(),
        first <= list[k].page <= last,
    ensures
        run_blocks(list, first, last).contains(list[k]),
    decreases last - first + 1,
{
    let b = list[k];
    let before = run_blocks(list, first, last - 1);
    let here = on_page(list, last);
    let all = run_blocks(list, first, last);
    if b.page < last {
        lemma_in_run(list, first, last - 1, k);
        let i = choose|i: int| 0 <= i < before.len() && before[i] == b;
        assert(all[i] == b);
    } else {
        let keep = |b: PlacedView| b.page == last;
        broadcast use vstd::seq_lib::group_filter_ensures;

        assert(keep(list[k]));
        assert(list.filter(keep).contains(list[k]));
        let i = choose|i: int| 0 <= i < here.len() && here[i] == b;
        assert(all[before.len() + i] == b);
    }
}

/// No block is lost: each one without a section stands in one of the sections that are added.
pub proof fn no_orphan_is_lost(sections: Seq<Section>, list: Seq<PlacedView>, k: int)
    requires
        are_orphan_sections(sections, list),
        0 <= k < list.len(),
    ensures
        exists|i: int|
            0 <= i < sections.len() && #[trigger] crate::text::texts(
                sections[i].block_ids@,
            ).contains(list[k].id),
{
    let p = list[k].page as int;
    assert(is_occupied(list, p));
    let i = lemma_covered(list, usize::MAX + 1, p);
    let run = page_runs(list)[i];
    lemma_in_run(list, run.0, run.1, k);
    let blocks = run_blocks(list, run.0, run.1);
    let m = choose|m: int| 0 <= m < blocks.len() && blocks[m] == list[k];
    assert(is_orphan_section(sections[i], list, run.0, run.1));
    let ids = blocks.map_values(|b: PlacedView| b.id);
    assert(ids[m] == list[k].id);
    assert(crate::text::texts(sections[i].block_ids@).contains(list[k].id));
}

/// What stands in one of some sections stands in all of them.
proof fn lemma_in_list(sections: Seq<Section>, i: int, id: Seq<char>)
    requires
        0 <= i < sections.len(),
        section_ids(sections[i]).contains(id),
    ensures
        list_ids(sections).contains(id),
    decreases sections.len(),
{
    let before = list_ids(sections.drop_last());
    let last = section_ids(sections.last());
    let all = list_ids(sections);
    if i < sections.len() - 1 {
        assert(sections.drop_last()[i] == sections[i]);
        lemma_in_list(sections.drop_last(), i, id);
        let m = choose|m: int| 0 <= m < before.len() && before[m] == id;
        assert(all[m] == id);
    } else {
        let m = choose|m: int| 0 <= m < last.len() && last[m] == id;
        assert(all[before.len() + m] == id);
    }
}

/// What stands in some sections stands in them and others.
proof fn lemma_in_longer_list(sections: Seq<Section>, n: int, id: Seq<char>)
    requires
        0 <= n <= sections.len(),
        list_ids(sections.take(n)).contains(id),
    ensures
        list_ids(sections).contains(id),
    decreases sections.len() - n,
{
    if n < sections.len() {
        let before = list_ids(sections.take(n));
        let next = sections.take(n + 1);
        assert(next.drop_last() == sections.take(n));
        let m = choose|m: int| 0 <= m < before.len() && before[m] == id;
        assert(list_ids(next)[m] == id);
        lemma_in_longer_list(sections, n + 1, id);
    } else {
        assert(sections.take(n) == sections);
    }
}

/// After sections have been added, every block of the document stands in a section.
pub proof fn every_block_has_a_section(
    sections: Seq<Section>,
    pages: Seq<RawPage>,
    all: Seq<Section>,
    k: int,
)
    requires
        all.len() >= sections.len(),
        all.take(sections.len() as int) == sections,
        are_orphan_sections(
            all.skip(sections.len() as int),
            orphan_blocks(all_blocks(pages), list_ids(sections)),
        ),
        0 <= k < all_blocks(pages).len(),
    ensures
        list_ids(all).contains(all_blocks(pages)[k].id),
{
    let blocks = all_blocks(pages);
    let b = blocks[k];
    let assigned = list_ids(sections);
    if assigned.contains(b.id) {
        lemma_in_longer_list(all, sections.len() as int, b.id);
    } else {
        let keep = |b: PlacedView| !assigned.contains(b.id);
        broadcast use vstd::seq_lib::group_filter_ensures;

        assert(keep(blocks[k]));
        assert(blocks.filter(keep).contains(blocks[k]));
        let m = choose|m: int|
            0 <= m < blocks.filter(keep).len() && blocks.filter(keep)[m] == b;
        let list = orphan_blocks(blocks, assigned);
        assert(list[m].id == b.id);
        let added = all.skip(sections.len() as int);
        no_orphan_is_lost(added, list, m);
        let i = choose|i: int|
            0 <= i < added.len() && #[trigger] crate::text::texts(
                added[i].block_ids@,
            ).contains(b.id);
        let own = crate::text::texts(added[i].block_ids@);
        let j = choose|j: int| 0 <= j < own.len() && own[j] == b.id;
        assert(section_ids(added[i])[j] == b.id);
        assert(all[sections.len() + i] == added[i]);
        lemma_in_list(all, sections.len() + i, b.id);
    }
}

/// A section that is added holds blocks of the list only.
pub proof fn an_added_section_holds_orphans(list: Seq<PlacedView>, first: int, last: int, m: int)
    requires
        0 <= m < run_blocks(list, first, last).len(),
    ensures
        list.contains(run_blocks(list, first, last)[m]),
        first <= run_blocks(list, first, last)[m].page <= last,
    decreases last - first + 1,
{
    let before = run_blocks(list, first, last - 1);
    if m < before.len() {
        an_added_section_holds_orphans(list, first, last - 1, m);
    } else {
        let keep = |b: PlacedView| b.page == last;
        broadcast use vstd::seq_lib::group_filter_ensures;

        let b = list.filter(keep)[m - before.len()];
        assert(keep(b));
        assert(list.filter(keep).contains(b));
        list.lemma_filter_contains_rev(keep, b);
    }
}

/// The ids of sections are collected section by section: first those of the blocks of a section
/// itself, then those of the sections in it.
pub proof fn ids_are_collected_section_by_section(a: Seq<Section>, b: Seq<Section>)
    ensures
        list_ids(a + b) == list_ids(a) + list_ids(b),
        a.len() == 0 ==> list_ids(a).len() == 0,
        a.len() == 1 ==> list_ids(a) == section_ids(a[0]),
        a.len() == 1 ==> section_ids(a[0]) == crate::text::texts(a[0].block_ids@) + list_ids(
            a[0].children@,
        ),
    decreases b.len(),
{
    if b.len() == 0 {
        assert(a + b =~= a);
        assert(list_ids(a) + list_ids(b) =~= list_ids(a));
    } else {
        assert((a + b).drop_last() =~= a + b.drop_last());
        assert((a + b).last() == b.last());
        ids_are_collected_section_by_section(a, b.drop_last());
        assert(list_ids(a) + list_ids(b.drop_last()) + section_ids(b.last()) =~= list_ids(a) + (
        list_ids(b.drop_last()) + section_ids(b.last())));
    }
    if a.len() == 1 {
        assert(a.drop_last() =~= Seq::<Section>::empty());
        assert(list_ids(a.drop_last()) =~= Seq::<Seq<char>>::empty());
        assert(list_ids(a) =~= section_ids(a[0]));
    }
}

/// The id of a block that stands in a section, or in one of the sections in it, is collected.
pub proof fn ids_of_nested_sections_are_collected(section: Section, c: int, b: int)
    requires
        0 <= c < section.children@.len(),
        0 <= b < section.children@[c].block_ids@.len(),
    ensures
        section_ids(section).contains(section.children@[c].block_ids@[b]@),
{
    let child = section.children@[c];
    let id = child.block_ids@[b]@;
    assert(crate::text::texts(child.block_ids@)[b] == id);
    assert(section_ids(child)[b] == id);
    lemma_in_list(section.children@, c, id);
    let deep = list_ids(section.children@);
    let m = choose|m: int| 0 <= m < deep.len() && deep[m] == id;
    assert(section_ids(section)[section.block_ids@.len() + m] == id);
}

/// Blocks are collected page by page, each with its page, its id and its text.
pub proof fn blocks_are_collected_page_by_page(a: Seq<RawPage>, b: Seq<RawPage>, i: int)
    ensures
        all_blocks(a + b) == all_blocks(a) + all_blocks(b),
        a.len() == 0 ==> all_blocks(a).len() == 0,
        a.len() == 1 ==> all_blocks(a).len() == a[0].blocks@.len(),
        a.len() == 1 && 0 <= i < a[0].blocks@.len() ==> all_blocks(a)[i] == (PlacedView {
            page: a[0].page_index,
            id: a[0].blocks@[i].id@,
            text: a[0].blocks@[i].text@,
        }),
    decreases b.len(),
{
    if b.len() == 0 {
        assert(a + b =~= a);
        assert(all_blocks(a) + all_blocks(b) =~= all_blocks(a));
    } else {
        assert((a + b).drop_last() =~= a + b.drop_last());
        assert((a + b).last() == b.last());
        blocks_are_collected_page_by_page(a, b.drop_last(), i);
        assert(all_blocks(a) + all_blocks(b.drop_last()) + page_blocks(b.last()) =~= all_blocks(a)
            + (all_blocks(b.drop_last()) + page_blocks(b.last())));
    }
    if a.len() == 1 {
        assert(a.drop_last() =~= Seq::<RawPage>::empty());
        assert(all_blocks(a.drop_last()) =~= Seq::<PlacedView>::empty());
        assert(all_blocks(a) =~= page_blocks(a[0]));
    }
}

/// The page of an id is that of the last block with it.
pub proof fn the_last_page_of_an_id_counts(a: Seq<PlacedView>, b: Seq<PlacedView>, id: Seq<char>)
    ensures
        page_of(a + b, id) == (match page_of(b, id) {
            Some(page) => Some(page),
            None => page_of(a, id),
        }),
        a.len() == 0 ==> page_of(a, id) is None,
        a.len() == 1 ==> page_of(a, id) == (if a[0].id == id {
            Some(a[0].page)
        } else {
            None
        }),
    decreases b.len(),
{
    if b.len() == 0 {
        assert(a + b =~= a);
    } else {
        assert((a + b).drop_last() =~= a + b.drop_last());
        assert((a + b).last() == b.last());
        the_last_page_of_an_id_counts(a, b.drop_last(), id);
    }
    if a.len() == 1 {
        assert(a.drop_last() =~= Seq::<PlacedView>::empty());
    }
}

/// An id that no block has is on no page, and the page of a block that is there is known.
proof fn lemma_page_of(blocks: Seq<PlacedView>, id: Seq<char>)
    ensures
        page_of(blocks, id) is Some <==> exists|i: int|
            0 <= i < blocks.len() && (#[trigger] blocks[i]).id == id,
    decreases blocks.len(),
{
    if blocks.len() > 0 {
        let rest = blocks.drop_last();
        lemma_page_of(rest, id);
        if page_of(rest, id) is Some {
            let i = choose|i: int| 0 <= i < rest.len() && (#[trigger] rest[i]).id == id;
            assert(blocks[i].id == id);
        }
        if exists|i: int| 0 <= i < blocks.len() && (#[trigger] blocks[i]).id == id {
            let i = choose|i: int| 0 <= i < blocks.len() && (#[trigger] blocks[i]).id == id;
            if i < rest.len() {
                assert(rest[i].id == id);
            }
        }
        if blocks.last().id == id {
            assert(blocks[blocks.len() - 1].id == id);
        }
    }
}

/// Settled blocks of a part of a list are settled in the list, if no id is on both sides.
proof fn lemma_settled_apart(a: Seq<PlacedView>, b: Seq<PlacedView>, x: PlacedView)
    requires
        forall|i: int, j: int|
            0 <= i < a.len() && 0 <= j < b.len() ==> (#[trigger] a[i]).id != (#[trigger] b[j]).id,
    ensures
        a.contains(x) ==> settled(a + b, x) == settled(a, x),
        b.contains(x) ==> settled(a + b, x) == settled(b, x),
{
    the_last_page_of_an_id_counts(a, b, x.id);
    lemma_page_of(a, x.id);
    lemma_page_of(b, x.id);
    if a.contains(x) {
        let i = choose|i: int| 0 <= i < a.len() && a[i] == x;
        assert(a[i].id == x.id);
        if page_of(b, x.id) is Some {
            let j = choose|j: int| 0 <= j < b.len() && (#[trigger] b[j]).id == x.id;
            assert(a[i].id != b[j].id);
        }
    }
    if b.contains(x) {
        let j = choose|j: int| 0 <= j < b.len() && b[j] == x;
        assert(b[j].id == x.id);
    }
}

/// Blocks are without a section one by one: a block whose id no section has stays in its place,
/// with its page and its text, and any other goes.
pub proof fn blocks_without_a_section_stay(
    a: Seq<PlacedView>,
    b: Seq<PlacedView>,
    assigned: Seq<Seq<char>>,
)
    requires
        forall|i: int, j: int|
            0 <= i < a.len() && 0 <= j < b.len() ==> (#[trigger] a[i]).id != (#[trigger] b[j]).id,
    ensures
        orphan_blocks(a + b, assigned) == orphan_blocks(a, assigned) + orphan_blocks(b, assigned),
        a.len() == 0 ==> orphan_blocks(a, assigned).len() == 0,
        a.len() == 1 ==> orphan_blocks(a, assigned) == (if assigned.contains(a[0].id) {
            Seq::empty()
        } else {
            a
        }),
{
    let keep = |b: PlacedView| !assigned.contains(b.id);
    Seq::filter_distributes_over_add(a, b, keep);
    let (ka, kb) = (a.filter(keep), b.filter(keep));
    broadcast use vstd::seq_lib::group_filter_ensures;

    assert forall|i: int| 0 <= i < ka.len() implies settled(a + b, #[trigger] ka[i]) == settled(
        a,
        ka[i],
    ) by {
        assert(ka.contains(ka[i]));
        a.lemma_filter_contains_rev(keep, ka[i]);
        lemma_settled_apart(a, b, ka[i]);
    }
    assert forall|i: int| 0 <= i < kb.len() implies settled(a + b, #[trigger] kb[i]) == settled(
        b,
        kb[i],
    ) by {
        assert(kb.contains(kb[i]));
        b.lemma_filter_contains_rev(keep, kb[i]);
        lemma_settled_apart(a, b, kb[i]);
    }
    assert(orphan_blocks(a + b, assigned) =~= orphan_blocks(a, assigned) + orphan_blocks(
        b,
        assigned,
    ));
    reveal(Seq::filter);
    if a.len() == 1 {
        assert(a.drop_last() =~= Seq::<PlacedView>::empty());
        assert(a.drop_last().filter(keep) =~= Seq::<PlacedView>::empty());
        the_last_page_of_an_id_counts(a, a, a[0].id);
        if !assigned.contains(a[0].id) {
            assert(keep(a.last()));
            assert(a.filter(keep) =~= a);
            assert(orphan_blocks(a, assigned) =~= a);
        } else {
            assert(!keep(a.last()));
            assert(orphan_blocks(a, assigned) =~= Seq::<PlacedView>::empty());
        }
    }
}

/// A block without a section is put on the last page that has its id.
pub proof fn blocks_without_a_section_are_on_the_page_of_their_id(
    blocks: Seq<PlacedView>,
    assigned: Seq<Seq<char>>,
    k: int,
)
    requires
        0 <= k < orphan_blocks(blocks, assigned).len(),
    ensures
        ({
            let b = orphan_blocks(blocks, assigned)[k];
            &&& page_of(blocks, b.id) == Some(b.page)
            &&& !assigned.contains(b.id)
            &&& exists|i: int|
                0 <= i < blocks.len() && (#[trigger] blocks[i]).id == b.id && blocks[i].text
                    == b.text
        }),
{
    let keep = |b: PlacedView| !assigned.contains(b.id);
    broadcast use vstd::seq_lib::group_filter_ensures;

    let kept = blocks.filter(keep);
    assert(keep(kept[k]));
    assert(kept.contains(kept[k]));
    blocks.lemma_filter_contains_rev(keep, kept[k]);
    let i = choose|i: int| 0 <= i < blocks.len() && blocks[i] == kept[k];
    assert(blocks[i].id == kept[k].id);
    lemma_page_of(blocks, kept[k].id);
}

/// Every page between the first and the last page of a run has a block.
proof fn lemma_run_is_full(list: Seq<PlacedView>, n: int, i: int, p: int)
    requires
        0 <= i < runs_below(list, n).len(),
        runs_below(list, n)[i].0 <= p <= runs_below(list, n)[i].1,
    ensures
        is_occupied(list, p),
    decreases n,
{
    let before = runs_below(list, n - 1);
    if is_occupied(list, n - 1) {
        if i < before.len() - 1 || (i < before.len() && before.last().1 != n - 2) {
            lemma_run_is_full(list, n - 1, i, p);
        } else if i < before.len() {
            if p < n - 1 {
                lemma_run_is_full(list, n - 1, i, p);
            }
        }
    } else {
        lemma_run_is_full(list, n - 1, i, p);
    }
}

/// A page has a block of the list exactly if it lies in one of the runs of pages.
pub proof fn a_run_is_made_of_the_pages_with_blocks(list: Seq<PlacedView>, p: int)
    requires
        0 <= p <= usize::MAX,
    ensures
        (exists|k: int| 0 <= k < list.len() && (#[trigger] list[k]).page == p) <==> (exists|i: int|
            0 <= i < page_runs(list).len() && (#[trigger] page_runs(list)[i]).0 <= p
                <= page_runs(list)[i].1),
{
    if exists|k: int| 0 <= k < list.len() && (#[trigger] list[k]).page == p {
        assert(is_occupied(list, p));
        let i = lemma_covered(list, usize::MAX + 1, p);
        assert(page_runs(list)[i].0 <= p <= page_runs(list)[i].1);
    }
    if exists|i: int|
        0 <= i < page_runs(list).len() && (#[trigger] page_runs(list)[i]).0 <= p <= page_runs(
            list,
        )[i].1 {
        let i = choose|i: int|
            0 <= i < page_runs(list).len() && (#[trigger] page_runs(list)[i]).0 <= p
                <= page_runs(list)[i].1;
        lemma_run_is_full(list, usize::MAX + 1, i, p);
    }
}

/// The blocks of a run come page by page, and on a page in the order of the list.
pub proof fn the_blocks_of_a_run_come_page_by_page(
    a: Seq<PlacedView>,
    b: Seq<PlacedView>,
    first: int,
    middle: int,
    last: int,
)
    requires
        first <= middle <= last + 1,
    ensures
        run_blocks(a, first, last) == run_blocks(a, first, middle - 1) + run_blocks(
            a,
            middle,
            last,
        ),
        run_blocks(a + b, first, first) == run_blocks(a, first, first) + run_blocks(
            b,
            first,
            first,
        ),
        a.len() == 1 ==> run_blocks(a, first, first) == (if a[0].page == first {
            a
        } else {
            Seq::empty()
        }),
    decreases last - middle + 1,
{
    let none = Seq::<PlacedView>::empty();
    if middle == last + 1 {
        assert(run_blocks(a, middle, last) =~= none);
        assert(run_blocks(a, first, middle - 1) + none =~= run_blocks(a, first, last));
    } else {
        the_blocks_of_a_run_come_page_by_page(a, b, first, middle, last - 1);
        assert(run_blocks(a, first, middle - 1) + run_blocks(a, middle, last - 1) + on_page(a, last)
            =~= run_blocks(a, first, middle - 1) + (run_blocks(a, middle, last - 1) + on_page(
            a,
            last,
        )));
    }
    let keep = |b: PlacedView| b.page == first;
    Seq::filter_distributes_over_add(a, b, keep);
    assert(run_blocks(a, first, first - 1) =~= none);
    assert(run_blocks(b, first, first - 1) =~= none);
    assert(run_blocks(a + b, first, first - 1) =~= none);
    assert(run_blocks(a, first, first) =~= a.filter(keep));
    assert(run_blocks(b, first, first) =~= b.filter(keep));
    assert(run_blocks(a + b, first, first) =~= (a + b).filter(keep));
    reveal(Seq::filter);
    if a.len() == 1 {
        assert(a.drop_last() =~= none);
        assert(a.drop_last().filter(keep) =~= none);
        if a[0].page == first {
            assert(keep(a.last()));
            assert(a.filter(keep) =~= a);
        } else {
            assert(!keep(a.last()));
        }
    }
}

/// An added section has no level, tells its pages in its title as they are counted from one, and
/// holds the ids and the texts of the blocks on its pages, one text to a line.
pub proof fn an_added_section_tells_its_pages_and_blocks(
    sections: Seq<Section>,
    list: Seq<PlacedView>,
    i: int,
)
    requires
        are_orphan_sections(sections, list),
        0 <= i < sections.len(),
    ensures
        sections.len() == page_runs(list).len(),
        ({
            let s = sections[i];
            let run = page_runs(list)[i];
            let blocks = run_blocks(list, run.0, run.1);
            &&& s.level == 0
            &&& s.pattern@ == "orphan"@
            &&& s.page_start == run.0 && s.body_page_start == run.0
            &&& s.page_end == run.1 && s.body_page_end == run.1
            &&& s.title@ == "未归类内容 (第"@ + crate::number::decimal_text((run.0 + 1) as nat) + "-"@
                + crate::number::decimal_text((run.1 + 1) as nat) + "页)"@
            &&& s.children@.len() == 0
            &&& s.block_ids@.len() == blocks.len()
            &&& forall|k: int| 0 <= k < blocks.len() ==> s.block_ids@[k]@ == (#[trigger] blocks[k]).id
            &&& s.body_text@ == crate::text::joined(blocks.map_values(|b: PlacedView| b.text), "\n"@)
        }),
{
    let run = page_runs(list)[i];
    let s = sections[i];
    assert(is_orphan_section(s, list, run.0, run.1));
    let blocks = run_blocks(list, run.0, run.1);
    let ids = crate::text::texts(s.block_ids@);
    assert(ids.len() == blocks.len());
    assert forall|k: int| 0 <= k < blocks.len() implies s.block_ids@[k]@ == (
    #[trigger] blocks[k]).id by {
        assert(ids[k] == s.block_ids@[k]@);
    }
}

} // verus!
