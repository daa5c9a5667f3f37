//! What the store holds and what its queries return, as mathematics.

use crate::order::{
    in_rank_order, lemma_ranked_in_order, lemma_ranked_same_elements, ranked, text_le, text_lt,
    Rank, Sortable,
};
use crate::page::{MetadataModel, Page, PageModel, PageType, StoredAttachmentModel};
use crate::table::{ascending, Keyed};
use crate::text::{contains_text, fold, starts_with};
use vstd::prelude::*;

verus! {

/// What a store holds: each table in the order of its keys.
pub struct StoreModel {
    pub pages: Seq<PageModel>,
    pub attachments: Seq<StoredAttachmentModel>,
    pub metadata: Seq<MetadataModel>,
}

/// The key of the metadata entry that says when the site was last compiled.
pub open spec fn compile_time_key() -> Seq<char> {
    "last_compiled"@
}

/// What a new store holds: no page, no attachment, and an empty time of the
/// last compile.
pub open spec fn empty_store() -> StoreModel {
    StoreModel {
        pages: Seq::empty(),
        attachments: Seq::empty(),
        metadata: seq![MetadataModel { key: compile_time_key(), value: Seq::empty() }],
    }
}

/// The pages of a given type.
pub open spec fn of_type(t: PageType) -> spec_fn(PageModel) -> bool {
    |p: PageModel| p.page_type == t
}

/// The pages of the items of a category.
pub open spec fn item_of_category(category: Seq<char>) -> spec_fn(PageModel) -> bool {
    |p: PageModel| p.page_type == PageType::Item && p.category == Some(category)
}

/// The attachments of the item with a given slug.
pub open spec fn of_item(slug: Seq<char>) -> spec_fn(StoredAttachmentModel) -> bool {
    |a: StoredAttachmentModel| a.slug == slug
}

/// The attachments of all items but the one with a given slug.
pub open spec fn of_other_items(slug: Seq<char>) -> spec_fn(StoredAttachmentModel) -> bool {
    |a: StoredAttachmentModel| a.slug != slug
}

/// Whether a search for `query` finds `page`: the page is no index page, and
/// its title or its content holds the query, capital ASCII letters counting
/// as small ones.
pub open spec fn matches_query(page: PageModel, query: Seq<char>) -> bool {
    page.page_type != PageType::Index && (contains_text(fold(page.title), fold(query))
        || contains_text(fold(page.content), fold(query)))
}

/// `matches_query` for a given query.
pub open spec fn matching(query: Seq<char>) -> spec_fn(PageModel) -> bool {
    |p: PageModel| matches_query(p, query)
}

/// How well the title of `page` answers `query`: 2 where the title is the
/// query, 1 where it begins with it, 0 otherwise; capital ASCII letters
/// counting as small ones.
pub open spec fn title_rank(page: PageModel, query: Seq<char>) -> u8 {
    if fold(page.title) == fold(query) {
        2
    } else if starts_with(fold(page.title), fold(query)) {
        1
    } else {
        0
    }
}

/// A page that a search found, with the rank of its title.
#[derive(Debug)]
pub struct SearchHit {
    pub rank: u8,
    pub page: Page,
}

/// A `SearchHit` with its page as a model.
pub struct HitModel {
    pub rank: u8,
    pub page: PageModel,
}

impl Rank for HitModel {
    /// Hits with the higher rank go first, and of equal ranks the page that
    /// was written later.
    open spec fn precedes(&self, other: &Self) -> bool {
        self.rank > other.rank || (self.rank == other.rank && text_le(
            other.page.updated_at,
            self.page.updated_at,
        ))
    }

    proof fn lemma_total(a: &Self, b: &Self) {
        crate::order::lemma_text_le_total(a.page.updated_at, b.page.updated_at);
    }

    proof fn lemma_transitive(a: &Self, b: &Self, c: &Self) {
        if a.rank == b.rank && b.rank == c.rank {
            crate::order::lemma_text_le_transitive(
                c.page.updated_at,
                b.page.updated_at,
                a.page.updated_at,
            );
        }
    }
}

impl Sortable for SearchHit {
    type Model = HitModel;

    open spec fn model(&self) -> HitModel {
        HitModel { rank: self.rank, page: self.page@ }
    }

    fn goes_before(&self, other: &Self) -> (r: bool) {
        self.rank > other.rank || (self.rank == other.rank && crate::order::str_le(
            other.page.updated_at.as_str(),
            self.page.updated_at.as_str(),
        ))
    }
}

/// The hit that a found page makes.
pub open spec fn hit_of(query: Seq<char>) -> spec_fn(PageModel) -> HitModel {
    |p: PageModel| HitModel { rank: title_rank(p, query), page: p }
}

/// The page of a hit.
pub open spec fn page_of_hit() -> spec_fn(HitModel) -> PageModel {
    |h: HitModel| h.page
}

/// The hits of a search for `query` among `pages`, best first: pages whose
/// title is the query, then pages whose title begins with it, then the
/// others, and within each group the page that was written later first.
pub open spec fn ranked_hits(pages: Seq<PageModel>, query: Seq<char>) -> Seq<HitModel> {
    ranked(pages.filter(matching(query)).map_values(hit_of(query)))
}

/// The first `limit` pages that a search for `query` finds among `pages`.
pub open spec fn found_pages(pages: Seq<PageModel>, query: Seq<char>, limit: nat) -> Seq<
    PageModel,
> {
    let hits = ranked_hits(pages, query);
    let n = if limit < hits.len() {
        limit
    } else {
        hits.len()
    };
    hits.take(n as int).map_values(page_of_hit())
}

/// One more row of a filter: the rows that pass among the first `i + 1` are
/// those that pass among the first `i`, and row `i` where it passes.
pub proof fn lemma_filter_next<T>(rows: Seq<T>, pass: spec_fn(T) -> bool, i: int)
    requires
        0 <= i < rows.len(),
    ensures
        rows.take(i + 1).filter(pass) == if pass(rows[i]) {
            rows.take(i).filter(pass).push(rows[i])
        } else {
            rows.take(i).filter(pass)
        },
{
    reveal(Seq::filter);
    assert(rows.take(i + 1).drop_last() =~= rows.take(i));
    assert(rows.take(i + 1).last() == rows[i]);
}

/// The rows of a table that pass a filter are a table, and each of them is a
/// row of the table.
pub proof fn lemma_filter_ascending<T: Keyed>(rows: Seq<T>, pass: spec_fn(T) -> bool)
    requires
        ascending(rows),
    ensures
        ascending(rows.filter(pass)),
        forall|k: int|
            0 <= k < rows.filter(pass).len() ==> rows.contains(#[trigger] rows.filter(pass)[k]),
    decreases rows.len(),
{
    reveal(Seq::filter);
    let out = rows.filter(pass);
    if rows.len() > 0 {
        let head = rows.drop_last();
        let kept = head.filter(pass);
        assert forall|i: int, j: int| #![trigger head[i], head[j]] 0 <= i < j
            < head.len() implies text_lt(head[i].key(), head[j].key()) by {
            assert(head[i] == rows[i] && head[j] == rows[j]);
        }
        lemma_filter_ascending(head, pass);
        assert forall|k: int| 0 <= k < kept.len() implies rows.contains(#[trigger] kept[k])
            && text_lt(kept[k].key(), rows.last().key()) by {
            assert(head.contains(kept[k]));
            let m = choose|m: int| 0 <= m < head.len() && head[m] == kept[k];
            assert(rows[m] == kept[k]);
            assert(text_lt(rows[m].key(), rows[rows.len() - 1].key()));
        }
        if pass(rows.last()) {
            assert(out == kept.push(rows.last()));
            assert(rows[rows.len() - 1] == rows.last());
            assert forall|i: int, j: int| #![trigger out[i], out[j]] 0 <= i < j
                < out.len() implies text_lt(out[i].key(), out[j].key()) by {
                if j < kept.len() {
                    assert(out[i] == kept[i] && out[j] == kept[j]);
                } else {
                    assert(out[i] == kept[i]);
                }
            }
            assert forall|k: int| 0 <= k < out.len() implies rows.contains(#[trigger] out[k]) by {
                if k < kept.len() {
                    assert(out[k] == kept[k]);
                }
            }
        }
    }
}

/// Every row that passes a filter is a row of the list, and passes.
pub proof fn lemma_filter_from<T>(rows: Seq<T>, pass: spec_fn(T) -> bool)
    ensures
        forall|k: int|
            0 <= k < rows.filter(pass).len() ==> rows.contains(#[trigger] rows.filter(pass)[k])
                && pass(rows.filter(pass)[k]),
    decreases rows.len(),
{
    reveal(Seq::filter);
    let out = rows.filter(pass);
    if rows.len() > 0 {
        let head = rows.drop_last();
        let kept = head.filter(pass);
        lemma_filter_from(head, pass);
        assert forall|k: int| 0 <= k < out.len() implies rows.contains(#[trigger] out[k]) && pass(
            out[k],
        ) by {
            if k < kept.len() {
                assert(out[k] == kept[k]);
                assert(head.contains(kept[k]));
                let m = choose|m: int| 0 <= m < head.len() && head[m] == kept[k];
                assert(rows[m] == kept[k]);
            } else {
                assert(out[k] == rows[rows.len() - 1]);
            }
        }
    }
}

/// Every hit of a search carries the rank of its page's title, and its page
/// is one that the search finds.
pub proof fn lemma_hits(pages: Seq<PageModel>, query: Seq<char>)
    ensures
        in_rank_order(ranked_hits(pages, query)),
        ranked_hits(pages, query).len() == pages.filter(matching(query)).len(),
        forall|k: int|
            #![trigger ranked_hits(pages, query)[k]]
            0 <= k < ranked_hits(pages, query).len() ==> {
                let h = ranked_hits(pages, query)[k];
                h.rank == title_rank(h.page, query) && matches_query(h.page, query)
                    && pages.contains(h.page)
            },
{
    let found = pages.filter(matching(query));
    let unsorted = found.map_values(hit_of(query));
    let hits = ranked_hits(pages, query);
    lemma_ranked_in_order(unsorted);
    lemma_ranked_same_elements(unsorted);
    assert forall|k: int| #![trigger hits[k]] 0 <= k < hits.len() implies hits[k].rank
        == title_rank(hits[k].page, query) && matches_query(hits[k].page, query)
        && pages.contains(hits[k].page) by {
        assert(hits.contains(hits[k]));
        assert(unsorted.contains(hits[k]));
        let m = choose|m: int| 0 <= m < unsorted.len() && unsorted[m] == hits[k];
        assert(unsorted[m] == hit_of(query)(found[m]));
        pages.lemma_filter_pred(matching(query), m);
        lemma_filter_from(pages, matching(query));
    }
}

/// The pages that a search hands out are found pages and stand best first:
/// of two of them the earlier one has no lower rank, and where their ranks
/// are equal it was written no earlier.
pub proof fn lemma_found_in_order(pages: Seq<PageModel>, query: Seq<char>, limit: nat)
    ensures
        found_pages(pages, query, limit).len() <= limit,
        found_pages(pages, query, limit).len() <= pages.filter(matching(query)).len(),
        forall|k: int|
            0 <= k < found_pages(pages, query, limit).len() ==> matches_query(
                #[trigger] found_pages(pages, query, limit)[k],
                query,
            ),
        forall|i: int, j: int|
            #![trigger found_pages(pages, query, limit)[i], found_pages(pages, query, limit)[j]]
            0 <= i < j < found_pages(pages, query, limit).len() ==> {
                let a = found_pages(pages, query, limit)[i];
                let b = found_pages(pages, query, limit)[j];
                title_rank(a, query) > title_rank(b, query) || (title_rank(a, query)
                    == title_rank(b, query) && text_le(b.updated_at, a.updated_at))
            },
{
    let hits = ranked_hits(pages, query);
    let out = found_pages(pages, query, limit);
    lemma_hits(pages, query);
    assert forall|k: int| 0 <= k < out.len() implies matches_query(#[trigger] out[k], query) by {
        assert(out[k] == hits[k].page);
    }
    assert forall|i: int, j: int| #![trigger out[i], out[j]] 0 <= i < j < out.len() implies {
        let a = out[i];
        let b = out[j];
        title_rank(a, query) > title_rank(b, query) || (title_rank(a, query) == title_rank(
            b,
            query,
        ) && text_le(b.updated_at, a.updated_at))
    } by {
        assert(out[i] == hits[i].page && out[j] == hits[j].page);
        assert(hits[i].precedes(&hits[j]));
    }
}

/// Among the pages that a search hands out, a page whose title is the query
/// stands before every page that holds the query in its content only.
pub proof fn lemma_title_match_first(
    pages: Seq<PageModel>,
    query: Seq<char>,
    limit: nat,
    i: int,
    j: int,
)
    requires
        0 <= i < found_pages(pages, query, limit).len(),
        0 <= j < found_pages(pages, query, limit).len(),
        fold(found_pages(pages, query, limit)[i].title) == fold(query),
        !contains_text(fold(found_pages(pages, query, limit)[j].title), fold(query)),
    ensures
        i < j,
{
    let out = found_pages(pages, query, limit);
    let q = fold(query);
    let t = fold(out[j].title);
    lemma_found_in_order(pages, query, limit);
    assert(title_rank(out[i], query) == 2);
    assert(title_rank(out[j], query) == 0) by {
        if t == q {
            assert(t.subrange(0, q.len() as int) =~= q);
            assert(crate::text::occurs_at(t, q, 0));
        }
        if starts_with(t, q) {
            assert(crate::text::occurs_at(t, q, 0));
        }
    }
    if j < i {
        assert(title_rank(out[j], query) >= title_rank(out[i], query));
    }
}

} // verus!
