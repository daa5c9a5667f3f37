//! The store: pages by slug, attachments by file name, and the site's
//! metadata by key. A write under a key that is taken replaces the row.

use crate::order::{models, ranked, sort_ranked};
use crate::page::{
    pages_view, stamped_attachment, stamped_attachments, stamped_page, stamped_pages, stored_view,
    MetadataEntry, MetadataModel, Page, PageModel, PageType, SiteStats, StoredAttachment,
    StoredAttachmentModel,
};
use crate::query::{
    compile_time_key, empty_store, found_pages, hit_of, item_of_category, lemma_filter_ascending,
    lemma_filter_next, matching, of_item, of_other_items, of_type, page_of_hit, title_rank,
    SearchHit, StoreModel,
};
use crate::table::{
    ascending, get, get_row, lemma_put, lemma_without, put, put_all, put_row, remove_row,
    row_models, without,
};
use crate::text::{
    contains_chars, copy_str, ends_with, folded_chars, matches_at, opt_view, str_ends_with, str_eq,
};
use vstd::prelude::*;

verus! {

/// The time of the call in the form of RFC 3339: the system clock, read as
/// the time since 1970 with `SystemTime::now`, made a date with
/// `chrono::DateTime::from_timestamp` and written with `to_rfc3339`. Two calls
/// differ, so nothing is promised of the text.
#[verifier::external_body]
pub(crate) fn current_timestamp() -> (now: String) {
    let since = std::time::SystemTime::now().duration_since(std::time::UNIX_EPOCH)
        .unwrap_or_default();
    chrono::DateTime::from_timestamp(since.as_secs() as i64, since.subsec_nanos())
        .unwrap_or_default().to_rfc3339()
}

/// The MIME type that goes with a file name, by its ending.
pub open spec fn mime_of_filename(filename: Seq<char>) -> Seq<char> {
    if ends_with(filename, ".jpg"@) || ends_with(filename, ".jpeg"@) {
        "image/jpeg"@
    } else if ends_with(filename, ".png"@) {
        "image/png"@
    } else if ends_with(filename, ".gif"@) {
        "image/gif"@
    } else if ends_with(filename, ".svg"@) {
        "image/svg+xml"@
    } else if ends_with(filename, ".webp"@) {
        "image/webp"@
    } else if ends_with(filename, ".pdf"@) {
        "application/pdf"@
    } else if ends_with(filename, ".zip"@) {
        "application/zip"@
    } else if ends_with(filename, ".mp4"@) {
        "video/mp4"@
    } else if ends_with(filename, ".mp3"@) {
        "audio/mpeg"@
    } else if ends_with(filename, ".txt"@) {
        "text/plain"@
    } else {
        "application/octet-stream"@
    }
}

/// The MIME type that goes with a file name, by its ending;
/// `application/octet-stream` where the ending is not known.
pub fn get_mime_type(filename: &str) -> (mime: &'static str)
    ensures
        mime@ == mime_of_filename(filename@),
{
    if str_ends_with(filename, ".jpg") || str_ends_with(filename, ".jpeg") {
        "image/jpeg"
    } else if str_ends_with(filename, ".png") {
        "image/png"
    } else if str_ends_with(filename, ".gif") {
        "image/gif"
    } else if str_ends_with(filename, ".svg") {
        "image/svg+xml"
    } else if str_ends_with(filename, ".webp") {
        "image/webp"
    } else if str_ends_with(filename, ".pdf") {
        "application/pdf"
    } else if str_ends_with(filename, ".zip") {
        "application/zip"
    } else if str_ends_with(filename, ".mp4") {
        "video/mp4"
    } else if str_ends_with(filename, ".mp3") {
        "audio/mpeg"
    } else if str_ends_with(filename, ".txt") {
        "text/plain"
    } else {
        "application/octet-stream"
    }
}

/// Whether each table of a store is in the order of its keys, no key twice.
pub open spec fn valid_store(s: StoreModel) -> bool {
    ascending(s.pages) && ascending(s.attachments) && ascending(s.metadata)
}

/// The store after `page` was written at the time `now`.
pub open spec fn page_saved(s: StoreModel, page: PageModel, now: Seq<char>) -> StoreModel {
    StoreModel { pages: put(s.pages, stamped_page(page, now)), ..s }
}

/// The store after `pages` were written, one after the other, at the time
/// `now`.
pub open spec fn pages_saved(s: StoreModel, pages: Seq<PageModel>, now: Seq<char>) -> StoreModel {
    StoreModel { pages: put_all(s.pages, stamped_pages(pages, now)), ..s }
}

/// The store after `attachment` was written at the time `now`.
pub open spec fn attachment_saved(
    s: StoreModel,
    attachment: StoredAttachmentModel,
    now: Seq<char>,
) -> StoreModel {
    StoreModel { attachments: put(s.attachments, stamped_attachment(attachment, now)), ..s }
}

/// The store after `list` was written, one attachment after the other, at
/// the time `now`.
pub open spec fn attachments_saved(
    s: StoreModel,
    list: Seq<StoredAttachmentModel>,
    now: Seq<char>,
) -> StoreModel {
    StoreModel { attachments: put_all(s.attachments, stamped_attachments(list, now)), ..s }
}

/// The store after `value` was written under `key` in the metadata.
pub open spec fn metadata_set(s: StoreModel, key: Seq<char>, value: Seq<char>) -> StoreModel {
    StoreModel { metadata: put(s.metadata, MetadataModel { key: key, value: value }), ..s }
}

/// The value under `key` in the metadata.
pub open spec fn metadata_value(s: StoreModel, key: Seq<char>) -> Option<Seq<char>> {
    match get(s.metadata, key) {
        Some(e) => Some(e.value),
        None => None,
    }
}

/// The store of the site: three tables in memory.
#[derive(Debug)]
pub struct StorageDB {
    pages: Vec<Page>,
    attachments: Vec<StoredAttachment>,
    metadata: Vec<MetadataEntry>,
}

impl View for StorageDB {
    type V = StoreModel;

    closed spec fn view(&self) -> StoreModel {
        StoreModel {
            pages: row_models(self.pages@),
            attachments: row_models(self.attachments@),
            metadata: row_models(self.metadata@),
        }
    }
}

impl StorageDB {
    /// Whether the store is in order: each table in the order of its keys,
    /// no key twice. Every store that `new` made and the methods changed is.
    pub open spec fn wf(&self) -> bool {
        valid_store(self@)
    }

    /// A store that holds no page and no attachment, and an empty time of
    /// the last compile.
    pub fn new() -> (db: StorageDB)
        ensures
            db.wf(),
            db@ == empty_store(),
    {
        let mut metadata: Vec<MetadataEntry> = Vec::new();
        metadata.push(MetadataEntry { key: copy_str("last_compiled"), value: String::new() });
        let db = StorageDB { pages: Vec::new(), attachments: Vec::new(), metadata };
        assert(db@.pages =~= empty_store().pages);
        assert(db@.attachments =~= empty_store().attachments);
        assert(db@.metadata =~= empty_store().metadata);
        db
    }

    /// Writes `page` under its slug at the time `now`. A page that the store
    /// holds under this slug is replaced.
    pub fn save_page_at(&mut self, page: &Page, now: &str)
        requires
            old(self).wf(),
        ensures
            final(self).wf(),
            final(self)@ == page_saved(old(self)@, page@, now@),
    {
        proof {
            lemma_put(self@.pages, stamped_page(page@, now@));
        }
        put_row(&mut self.pages, page.stamped(now));
    }

    /// Writes `page` under its slug at the time of the call.
    pub fn save_page(&mut self, page: &Page)
        requires
            old(self).wf(),
        ensures
            final(self).wf(),
            exists|now: Seq<char>| final(self)@ == page_saved(old(self)@, page@, now),
    {
        let now = current_timestamp();
        self.save_page_at(page, now.as_str());
    }

    /// The page under `slug`.
    pub fn get_page(&self, slug: &str) -> (r: Option<Page>)
        ensures
            match r {
                Some(p) => get(self@.pages, slug@) == Some(p@),
                None => get(self@.pages, slug@) is None,
            },
    {
        match get_row(&self.pages, slug) {
            Some(p) => Some(p.clone()),
            None => None,
        }
    }

    /// All pages, in the order of their slugs.
    pub fn get_all_pages(&self) -> (r: Vec<Page>)
        ensures
            pages_view(r@) == self@.pages,
    {
        let mut out: Vec<Page> = Vec::new();
        let mut i: usize = 0;
        while i < self.pages.len()
            invariant
                i <= self.pages.len(),
                out.len() == i,
                forall|j: int| 0 <= j < i ==> out@[j]@ == self.pages@[j]@,
            decreases self.pages.len() - i,
        {
            out.push(self.pages[i].clone());
            i += 1;
        }
        assert(pages_view(out@) =~= self@.pages);
        out
    }

    /// The pages of the type `page_type`, in the order of their slugs.
    pub fn get_pages_by_type(&self, page_type: PageType) -> (r: Vec<Page>)
        ensures
            pages_view(r@) == self@.pages.filter(of_type(page_type)),
    {
        let ghost all = self@.pages;
        let ghost keep = of_type(page_type);
        let mut out: Vec<Page> = Vec::new();
        let mut i: usize = 0;
        proof {
            reveal(Seq::filter);
            assert(all.take(0) =~= Seq::<PageModel>::empty());
            assert(pages_view(out@) =~= Seq::<PageModel>::empty());
        }
        while i < self.pages.len()
            invariant
                i <= self.pages.len(),
                all == self@.pages,
                keep == of_type(page_type),
                pages_view(out@) == all.take(i as int).filter(keep),
            decreases self.pages.len() - i,
        {
            let page = &self.pages[i];
            let ghost before = pages_view(out@);
            proof {
                lemma_filter_next(all, keep, i as int);
                assert(all[i as int] == page@);
            }
            if page.page_type == page_type {
                out.push(page.clone());
                assert(pages_view(out@) =~= before.push(page@));
            }
            i += 1;
        }
        assert(all.take(self.pages.len() as int) =~= all);
        out
    }

    /// The pages of the items of `category`, in the order of their slugs.
    pub fn get_items_by_category(&self, category: &str) -> (r: Vec<Page>)
        ensures
            pages_view(r@) == self@.pages.filter(item_of_category(category@)),
    {
        let ghost all = self@.pages;
        let ghost keep = item_of_category(category@);
        let mut out: Vec<Page> = Vec::new();
        let mut i: usize = 0;
        proof {
            reveal(Seq::filter);
            assert(all.take(0) =~= Seq::<PageModel>::empty());
            assert(pages_view(out@) =~= Seq::<PageModel>::empty());
        }
        while i < self.pages.len()
            invariant
                i <= self.pages.len(),
                all == self@.pages,
                keep == item_of_category(category@),
                pages_view(out@) == all.take(i as int).filter(keep),
            decreases self.pages.len() - i,
        {
            let page = &self.pages[i];
            let ghost before = pages_view(out@);
            proof {
                lemma_filter_next(all, keep, i as int);
                assert(all[i as int] == page@);
            }
            let in_category: bool = match &page.category {
                Some(c) => str_eq(c.as_str(), category),
                None => false,
            };
            if page.page_type == PageType::Item && in_category {
                out.push(page.clone());
                assert(pages_view(out@) =~= before.push(page@));
            }
            i += 1;
        }
        assert(all.take(self.pages.len() as int) =~= all);
        out
    }

    /// Removes the page under `slug`, and says whether there was one.
    pub fn delete_page(&mut self, slug: &str) -> (found: bool)
        requires
            old(self).wf(),
        ensures
            final(self).wf(),
            final(self)@ == (StoreModel { pages: without(old(self)@.pages, slug@), ..old(self)@ }),
            found == (get(old(self)@.pages, slug@) is Some),
    {
        proof {
            lemma_without(self@.pages, slug@);
        }
        remove_row(&mut self.pages, slug)
    }

    /// Removes all pages.
    pub fn clear_pages(&mut self)
        requires
            old(self).wf(),
        ensures
            final(self).wf(),
            final(self)@ == (StoreModel { pages: Seq::empty(), ..old(self)@ }),
    {
        self.pages = Vec::new();
        assert(self@.pages =~= Seq::<PageModel>::empty());
    }

    /// Writes `attachment` under its file name at the time `now`. An
    /// attachment that the store holds under this name is replaced.
    pub fn save_attachment_at(&mut self, attachment: &StoredAttachment, now: &str)
        requires
            old(self).wf(),
        ensures
            final(self).wf(),
            final(self)@ == attachment_saved(old(self)@, attachment@, now@),
    {
        proof {
            lemma_put(self@.attachments, stamped_attachment(attachment@, now@));
        }
        put_row(&mut self.attachments, attachment.stamped(now));
    }

    /// Writes `attachment` under its file name at the time of the call.
    pub fn save_attachment(&mut self, attachment: &StoredAttachment)
        requires
            old(self).wf(),
        ensures
            final(self).wf(),
            exists|now: Seq<char>| final(self)@ == attachment_saved(old(self)@, attachment@, now),
    {
        let now = current_timestamp();
        self.save_attachment_at(attachment, now.as_str());
    }

    /// The attachment under `filename`.
    pub fn get_attachment(&self, filename: &str) -> (r: Option<StoredAttachment>)
        ensures
            match r {
                Some(a) => get(self@.attachments, filename@) == Some(a@),
                None => get(self@.attachments, filename@) is None,
            },
    {
        match get_row(&self.attachments, filename) {
            Some(a) => Some(a.clone()),
            None => None,
        }
    }

    /// The attachments of the item with the slug `slug`, in the order of
    /// their file names.
    pub fn get_attachments_by_slug(&self, slug: &str) -> (r: Vec<StoredAttachment>)
        ensures
            stored_view(r@) == self@.attachments.filter(of_item(slug@)),
    {
        let ghost all = self@.attachments;
        let ghost keep = of_item(slug@);
        let mut out: Vec<StoredAttachment> = Vec::new();
        let mut i: usize = 0;
        proof {
            reveal(Seq::filter);
            assert(all.take(0) =~= Seq::<StoredAttachmentModel>::empty());
            assert(stored_view(out@) =~= Seq::<StoredAttachmentModel>::empty());
        }
        while i < self.attachments.len()
            invariant
                i <= self.attachments.len(),
                all == self@.attachments,
                keep == of_item(slug@),
                stored_view(out@) == all.take(i as int).filter(keep),
            decreases self.attachments.len() - i,
        {
            let a = &self.attachments[i];
            let ghost before = stored_view(out@);
            proof {
                lemma_filter_next(all, keep, i as int);
                assert(all[i as int] == a@);
            }
            if str_eq(a.slug.as_str(), slug) {
                out.push(a.clone());
                assert(stored_view(out@) =~= before.push(a@));
            }
            i += 1;
        }
        assert(all.take(self.attachments.len() as int) =~= all);
        out
    }

    /// All attachments, in the order of their items' slugs, those of one item
    /// in the order of their file names.
    pub fn get_all_attachments(&self) -> (r: Vec<StoredAttachment>)
        ensures
            stored_view(r@) == ranked(self@.attachments),
    {
        let mut out: Vec<StoredAttachment> = Vec::new();
        let mut i: usize = 0;
        while i < self.attachments.len()
            invariant
                i <= self.attachments.len(),
                out.len() == i,
                forall|j: int| 0 <= j < i ==> out@[j]@ == self.attachments@[j]@,
            decreases self.attachments.len() - i,
        {
            out.push(self.attachments[i].clone());
            i += 1;
        }
        assert(models(out@) =~= self@.attachments);
        let sorted = sort_ranked(out);
        assert(models(sorted@) =~= stored_view(sorted@));
        sorted
    }

    /// Removes the attachment under `filename`, and says whether there was
    /// one.
    pub fn delete_attachment(&mut self, filename: &str) -> (found: bool)
        requires
            old(self).wf(),
        ensures
            final(self).wf(),
            final(self)@ == (StoreModel {
                attachments: without(old(self)@.attachments, filename@),
                ..old(self)@
            }),
            found == (get(old(self)@.attachments, filename@) is Some),
    {
        proof {
            lemma_without(self@.attachments, filename@);
        }
        remove_row(&mut self.attachments, filename)
    }

    /// Removes the attachments of the item with the slug `slug`, and says how
    /// many there were.
    pub fn delete_attachments_by_slug(&mut self, slug: &str) -> (removed: usize)
        requires
            old(self).wf(),
        ensures
            final(self).wf(),
            final(self)@ == (StoreModel {
                attachments: old(self)@.attachments.filter(of_other_items(slug@)),
                ..old(self)@
            }),
            removed == old(self)@.attachments.len() - final(self)@.attachments.len(),
    {
        let ghost all = self@.attachments;
        let ghost keep = of_other_items(slug@);
        let mut rest: Vec<StoredAttachment> = Vec::new();
        let mut removed: usize = 0;
        let mut i: usize = 0;
        proof {
            reveal(Seq::filter);
            assert(all.take(0) =~= Seq::<StoredAttachmentModel>::empty());
            assert(row_models(rest@) =~= Seq::<StoredAttachmentModel>::empty());
        }
        while i < self.attachments.len()
            invariant
                i <= self.attachments.len(),
                all == self@.attachments,
                keep == of_other_items(slug@),
                row_models(rest@) == all.take(i as int).filter(keep),
                removed + rest.len() == i,
            decreases self.attachments.len() - i,
        {
            let a = &self.attachments[i];
            let ghost before = row_models(rest@);
            proof {
                lemma_filter_next(all, keep, i as int);
                assert(all[i as int] == a@);
            }
            if str_eq(a.slug.as_str(), slug) {
                removed += 1;
            } else {
                rest.push(a.clone());
                assert(row_models(rest@) =~= before.push(a@));
            }
            i += 1;
        }
        proof {
            assert(all.take(self.attachments.len() as int) =~= all);
            lemma_filter_ascending(all, keep);
        }
        self.attachments = rest;
        removed
    }

    /// Removes all attachments.
    pub fn clear_attachments(&mut self)
        requires
            old(self).wf(),
        ensures
            final(self).wf(),
            final(self)@ == (StoreModel { attachments: Seq::empty(), ..old(self)@ }),
    {
        self.attachments = Vec::new();
        assert(self@.attachments =~= Seq::<StoredAttachmentModel>::empty());
    }

    /// Writes `value` under `key` in the metadata.
    pub fn set_metadata(&mut self, key: &str, value: &str)
        requires
            old(self).wf(),
        ensures
            final(self).wf(),
            final(self)@ == metadata_set(old(self)@, key@, value@),
    {
        proof {
            lemma_put(self@.metadata, MetadataModel { key: key@, value: value@ });
        }
        put_row(&mut self.metadata, MetadataEntry { key: copy_str(key), value: copy_str(value) });
    }

    /// The value under `key` in the metadata.
    pub fn get_metadata(&self, key: &str) -> (r: Option<String>)
        ensures
            opt_view(r) == metadata_value(self@, key@),
    {
        match get_row(&self.metadata, key) {
            Some(e) => Some(e.value.clone()),
            None => None,
        }
    }

    /// Writes `now` as the time of the last compile.
    pub fn update_compile_time_at(&mut self, now: &str)
        requires
            old(self).wf(),
        ensures
            final(self).wf(),
            final(self)@ == metadata_set(old(self)@, compile_time_key(), now@),
    {
        self.set_metadata("last_compiled", now);
    }

    /// Writes the time of the call as the time of the last compile.
    pub fn update_compile_time(&mut self)
        requires
            old(self).wf(),
        ensures
            final(self).wf(),
            exists|now: Seq<char>| final(self)@ == metadata_set(old(self)@, compile_time_key(), now),
    {
        let now = current_timestamp();
        self.update_compile_time_at(now.as_str());
    }

    /// The time of the last compile.
    pub fn get_last_compiled(&self) -> (r: Option<String>)
        ensures
            opt_view(r) == metadata_value(self@, compile_time_key()),
    {
        self.get_metadata("last_compiled")
    }

    /// The pages that a search for `query` finds and the rank of each, in
    /// the order of the slugs.
    fn collect_hits(&self, query: &str) -> (hits: Vec<SearchHit>)
        ensures
            models(hits@) == self@.pages.filter(matching(query@)).map_values(hit_of(query@)),
    {
        let ghost all = self@.pages;
        let ghost keep = matching(query@);
        let ghost make = hit_of(query@);
        let wanted = folded_chars(query);
        let mut hits: Vec<SearchHit> = Vec::new();
        let mut i: usize = 0;
        proof {
            reveal(Seq::filter);
            assert(all.take(0) =~= Seq::<PageModel>::empty());
            assert(models(hits@) =~= all.take(0).filter(keep).map_values(make));
        }
        while i < self.pages.len()
            invariant
                i <= self.pages.len(),
                all == self@.pages,
                keep == matching(query@),
                make == hit_of(query@),
                wanted@ == crate::text::fold(query@),
                models(hits@) == all.take(i as int).filter(keep).map_values(make),
            decreases self.pages.len() - i,
        {
            let page = &self.pages[i];
            let ghost before = models(hits@);
            let ghost kept = all.take(i as int).filter(keep);
            proof {
                lemma_filter_next(all, keep, i as int);
                assert(all[i as int] == page@);
            }
            if page.page_type != PageType::Index {
                let title = folded_chars(page.title.as_str());
                let content = folded_chars(page.content.as_str());
                if contains_chars(&title, &wanted) || contains_chars(&content, &wanted) {
                    let begins = matches_at(&title, &wanted, 0);
                    let rank: u8 = if begins && title.len() == wanted.len() {
                        2
                    } else if begins {
                        1
                    } else {
                        0
                    };
                    proof {
                        if title.len() == wanted.len() {
                            assert(title@.subrange(0, wanted@.len() as int) =~= title@);
                        }
                        assert(rank == title_rank(page@, query@));
                    }
                    hits.push(SearchHit { rank, page: page.clone() });
                    assert(models(hits@) =~= before.push(make(page@)));
                    assert(kept.push(page@).map_values(make) =~= kept.map_values(make).push(
                        make(page@),
                    ));
                }
            }
            i += 1;
        }
        assert(all.take(self.pages.len() as int) =~= all);
        hits
    }

    /// Searches the pages for `query` and hands out at most `limit` of those
    /// found. A page is found where its title or its content holds the
    /// query, capital ASCII letters counting as small ones; index pages are
    /// never found. Pages whose title is the query come first, pages whose
    /// title begins with it second, and in each group the page that was
    /// written later comes first.
    pub fn search_pages(&self, query: &str, limit: usize) -> (r: Vec<Page>)
        ensures
            pages_view(r@) == found_pages(self@.pages, query@, limit as nat),
    {
        let hits = self.collect_hits(query);
        let sorted = sort_ranked(hits);
        let ghost order = models(sorted@);
        let n: usize = if limit < sorted.len() {
            limit
        } else {
            sorted.len()
        };
        let mut out: Vec<Page> = Vec::new();
        let mut i: usize = 0;
        while i < n
            invariant
                i <= n <= sorted.len(),
                order == models(sorted@),
                out.len() == i,
                forall|j: int| 0 <= j < i ==> out@[j]@ == order[j].page,
            decreases n - i,
        {
            out.push(sorted[i].page.clone());
            i += 1;
        }
        assert(pages_view(out@) =~= order.take(n as int).map_values(page_of_hit()));
        out
    }

    /// The number of pages that a search for `query` finds, whatever the
    /// limit.
    pub fn search_pages_count(&self, query: &str) -> (count: usize)
        ensures
            count == self@.pages.filter(matching(query@)).len(),
    {
        let hits = self.collect_hits(query);
        assert(models(hits@).len() == hits@.len());
        hits.len()
    }

    /// The number of pages of the type `page_type`.
    fn count_pages(&self, page_type: PageType) -> (count: usize)
        ensures
            count == self@.pages.filter(of_type(page_type)).len(),
    {
        let ghost all = self@.pages;
        let ghost keep = of_type(page_type);
        let mut count: usize = 0;
        let mut i: usize = 0;
        proof {
            reveal(Seq::filter);
            assert(all.take(0) =~= Seq::<PageModel>::empty());
        }
        while i < self.pages.len()
            invariant
                i <= self.pages.len(),
                all == self@.pages,
                keep == of_type(page_type),
                count == all.take(i as int).filter(keep).len(),
                count <= i,
            decreases self.pages.len() - i,
        {
            proof {
                lemma_filter_next(all, keep, i as int);
                assert(all[i as int] == self.pages@[i as int]@);
            }
            if self.pages[i].page_type == page_type {
                count += 1;
            }
            i += 1;
        }
        assert(all.take(self.pages.len() as int) =~= all);
        count
    }

    /// Counts of what the store holds: the pages of categories, the pages of
    /// items, the attachments, and the time of the last compile.
    pub fn get_stats(&self) -> (stats: SiteStats)
        ensures
            stats.total_categories == self@.pages.filter(of_type(PageType::Category)).len(),
            stats.total_items == self@.pages.filter(of_type(PageType::Item)).len(),
            stats.total_attachments == self@.attachments.len(),
            opt_view(stats.last_compiled) == metadata_value(self@, compile_time_key()),
    {
        SiteStats {
            total_categories: self.count_pages(PageType::Category),
            total_items: self.count_pages(PageType::Item),
            total_attachments: self.attachments.len(),
            last_compiled: self.get_last_compiled(),
        }
    }

    /// Removes everything: the store is as new.
    pub fn clear_all(&mut self)
        ensures
            final(self).wf(),
            final(self)@ == empty_store(),
    {
        *self = StorageDB::new();
    }

    /// Writes `pages` at the time `now`, one after the other, each under its
    /// slug. Of two pages with one slug the later one stays.
    pub fn save_pages_batch_at(&mut self, pages: &[Page], now: &str)
        requires
            old(self).wf(),
        ensures
            final(self).wf(),
            final(self)@ == pages_saved(old(self)@, pages_view(pages@), now@),
    {
        let ghost rows = stamped_pages(pages_view(pages@), now@);
        let ghost start = self@.pages;
        let mut i: usize = 0;
        assert(rows.skip(0) =~= rows);
        while i < pages.len()
            invariant
                i <= pages.len(),
                rows == stamped_pages(pages_view(pages@), now@),
                ascending(self@.pages),
                self@.attachments == old(self)@.attachments,
                self@.metadata == old(self)@.metadata,
                put_all(self@.pages, rows.skip(i as int)) == put_all(start, rows),
            decreases pages.len() - i,
        {
            proof {
                lemma_put(self@.pages, rows[i as int]);
                assert(rows.skip(i as int)[0] == rows[i as int]);
                assert(rows.skip(i as int).skip(1) =~= rows.skip(i + 1));
            }
            put_row(&mut self.pages, pages[i].stamped(now));
            i += 1;
        }
        assert(rows.skip(pages.len() as int) =~= Seq::<PageModel>::empty());
    }

    /// Writes `pages` at the time of the call.
    pub fn save_pages_batch(&mut self, pages: &[Page])
        requires
            old(self).wf(),
        ensures
            final(self).wf(),
            exists|now: Seq<char>| final(self)@ == pages_saved(old(self)@, pages_view(pages@), now),
    {
        let now = current_timestamp();
        self.save_pages_batch_at(pages, now.as_str());
    }

    /// Writes `attachments` at the time `now`, one after the other, each
    /// under its file name.
    pub fn save_attachments_batch_at(&mut self, attachments: &[StoredAttachment], now: &str)
        requires
            old(self).wf(),
        ensures
            final(self).wf(),
            final(self)@ == attachments_saved(old(self)@, stored_view(attachments@), now@),
    {
        let ghost rows = stamped_attachments(stored_view(attachments@), now@);
        let ghost start = self@.attachments;
        let mut i: usize = 0;
        assert(rows.skip(0) =~= rows);
        while i < attachments.len()
            invariant
                i <= attachments.len(),
                rows == stamped_attachments(stored_view(attachments@), now@),
                ascending(self@.attachments),
                self@.pages == old(self)@.pages,
                self@.metadata == old(self)@.metadata,
                put_all(self@.attachments, rows.skip(i as int)) == put_all(start, rows),
            decreases attachments.len() - i,
        {
            proof {
                lemma_put(self@.attachments, rows[i as int]);
                assert(rows.skip(i as int)[0] == rows[i as int]);
                assert(rows.skip(i as int).skip(1) =~= rows.skip(i + 1));
            }
            put_row(&mut self.attachments, attachments[i].stamped(now));
            i += 1;
        }
        assert(rows.skip(attachments.len() as int) =~= Seq::<StoredAttachmentModel>::empty());
    }

    /// Writes `attachments` at the time of the call.
    pub fn save_attachments_batch(&mut self, attachments: &[StoredAttachment])
        requires
            old(self).wf(),
        ensures
            final(self).wf(),
            exists|now: Seq<char>|
                final(self)@ == attachments_saved(old(self)@, stored_view(attachments@), now),
    {
        let now = current_timestamp();
        self.save_attachments_batch_at(attachments, now.as_str());
    }
}

} // verus!
