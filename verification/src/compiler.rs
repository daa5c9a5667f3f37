//! The compiler: scans the content, has every page rendered, and writes the
//! pages and attachments to the store.

use crate::config::Config;
use crate::content::{
    AttachmentModel, Category, CategoryModel, ContentItem, ItemModel, SiteContent, SiteModel,
};
use crate::error::{CompileError, CompileErrorModel};
use crate::markdown::{link_models, replace_attachment_links, rewrite_links, LinkModel};
use crate::page::{
    pages_view, stamped_attachment, stamped_attachments, stamped_page, stamped_pages, stored_view,
    MetadataModel, Page, PageModel, PageType, StoredAttachment, StoredAttachmentModel,
};
use crate::query::{compile_time_key, StoreModel};
use crate::scanner::{site_of, Scanner};
use crate::source::Listing;
use crate::storage::{
    attachments_saved, current_timestamp, metadata_set, pages_saved, valid_store, StorageDB,
};
use crate::table::{get, lemma_get_put_all, lemma_last_with_key_map, lemma_put, lemma_put_all};
use crate::text::{copy_bytes, copy_str, join2, list_view};
use vstd::prelude::*;

verus! {

/// What turns content into HTML. A compile asks it for the front page
/// first, then for each category's page, and after each category's page for
/// the pages of its items. A failure carries a message.
pub trait Renderer {
    /// The front page of the site.
    fn render_index(&self, site: &SiteContent) -> Result<String, String>;

    /// The page of a category.
    fn render_category(&self, category: &Category) -> Result<String, String>;

    /// The page of an item.
    fn render_item(&self, item: &ContentItem) -> Result<String, String>;
}

/// The rendered pages of a category: its own page, and one page for each of
/// its items in their order.
#[derive(Debug)]
pub struct RenderedCategory {
    pub page: String,
    pub items: Vec<String>,
}

/// The rendered pages of a site: the front page, and the pages of each
/// category in their order.
#[derive(Debug)]
pub struct Rendered {
    pub index: String,
    pub categories: Vec<RenderedCategory>,
}

/// A `RenderedCategory` with its texts as sequences of characters.
pub struct RenderedCategoryModel {
    pub page: Seq<char>,
    pub items: Seq<Seq<char>>,
}

/// A `Rendered` with its texts as sequences of characters.
pub struct RenderedModel {
    pub index: Seq<char>,
    pub categories: Seq<RenderedCategoryModel>,
}

impl View for RenderedCategory {
    type V = RenderedCategoryModel;

    open spec fn view(&self) -> RenderedCategoryModel {
        RenderedCategoryModel { page: self.page@, items: list_view(self.items@) }
    }
}

/// The models of a list of rendered categories.
pub open spec fn rendered_view(list: Seq<RenderedCategory>) -> Seq<RenderedCategoryModel> {
    list.map_values(|c: RenderedCategory| c@)
}

impl View for Rendered {
    type V = RenderedModel;

    open spec fn view(&self) -> RenderedModel {
        RenderedModel { index: self.index@, categories: rendered_view(self.categories@) }
    }
}

/// Whether `rendered` holds one page for each category of `categories` and
/// one for each of its items.
pub open spec fn fits_categories(
    categories: Seq<CategoryModel>,
    rendered: Seq<RenderedCategoryModel>,
) -> bool {
    categories.len() == rendered.len() && forall|c: int|
        0 <= c < categories.len() ==> (#[trigger] categories[c]).items.len()
            == rendered[c].items.len()
}

/// Whether `rendered` holds one page for each page of `site`.
pub open spec fn fits(site: SiteModel, rendered: RenderedModel) -> bool {
    fits_categories(site.categories, rendered.categories)
}

/// The front page.
pub open spec fn index_page(title: Seq<char>, html: Seq<char>, now: Seq<char>) -> PageModel {
    PageModel {
        id: "index"@,
        slug: "index"@,
        page_type: PageType::Index,
        title: title,
        content: html,
        category: None,
        updated_at: now,
    }
}

/// The page of a category.
pub open spec fn category_page(category: CategoryModel, html: Seq<char>, now: Seq<char>) -> PageModel {
    PageModel {
        id: "category-"@ + category.url,
        slug: category.url,
        page_type: PageType::Category,
        title: category.name,
        content: html,
        category: None,
        updated_at: now,
    }
}

/// The link of an attachment: from the name its author wrote to its new name.
pub open spec fn link_of() -> spec_fn(AttachmentModel) -> LinkModel {
    |a: AttachmentModel| LinkModel { original: a.original_name, replacement: a.new_name }
}

/// The page of an item: the rendered HTML with every reference to an
/// attachment rewritten to the attachment's new name.
pub open spec fn item_page(item: ItemModel, html: Seq<char>, now: Seq<char>) -> PageModel {
    PageModel {
        id: "item-"@ + item.url,
        slug: item.url,
        page_type: PageType::Item,
        title: item.title,
        content: rewrite_links(html, item.attachments.map_values(link_of())),
        category: Some(item.category),
        updated_at: now,
    }
}

/// An attachment of an item as the store keeps it.
pub open spec fn stored_of(item_url: Seq<char>, now: Seq<char>) -> spec_fn(
    AttachmentModel,
) -> StoredAttachmentModel {
    |a: AttachmentModel|
        StoredAttachmentModel {
            id: "attachment-"@ + a.new_name,
            slug: item_url,
            filename: a.new_name,
            original_name: a.original_name,
            mime_type: a.mime_type,
            file_data: a.file_data,
            file_size: a.file_size,
            updated_at: now,
        }
}

/// The pages of the first `n` items of a category.
pub open spec fn item_pages(
    items: Seq<ItemModel>,
    htmls: Seq<Seq<char>>,
    now: Seq<char>,
    n: int,
) -> Seq<PageModel>
    decreases n,
{
    if n <= 0 {
        Seq::empty()
    } else {
        item_pages(items, htmls, now, n - 1).push(item_page(items[n - 1], htmls[n - 1], now))
    }
}

/// The attachments of the first `n` items of a category.
pub open spec fn item_files(items: Seq<ItemModel>, now: Seq<char>, n: int) -> Seq<
    StoredAttachmentModel,
>
    decreases n,
{
    if n <= 0 {
        Seq::empty()
    } else {
        item_files(items, now, n - 1) + items[n - 1].attachments.map_values(
            stored_of(items[n - 1].url, now),
        )
    }
}

/// The pages of a category: its own page, then the pages of its items.
pub open spec fn category_pages(
    category: CategoryModel,
    rendered: RenderedCategoryModel,
    now: Seq<char>,
) -> Seq<PageModel> {
    seq![category_page(category, rendered.page, now)] + item_pages(
        category.items,
        rendered.items,
        now,
        category.items.len() as int,
    )
}

/// The pages of the first `n` categories.
pub open spec fn pages_of_categories(
    categories: Seq<CategoryModel>,
    rendered: Seq<RenderedCategoryModel>,
    now: Seq<char>,
    n: int,
) -> Seq<PageModel>
    decreases n,
{
    if n <= 0 {
        Seq::empty()
    } else {
        pages_of_categories(categories, rendered, now, n - 1) + category_pages(
            categories[n - 1],
            rendered[n - 1],
            now,
        )
    }
}

/// The attachments of the first `n` categories.
pub open spec fn files_of_categories(categories: Seq<CategoryModel>, now: Seq<char>, n: int) -> Seq<
    StoredAttachmentModel,
>
    decreases n,
{
    if n <= 0 {
        Seq::empty()
    } else {
        files_of_categories(categories, now, n - 1) + item_files(
            categories[n - 1].items,
            now,
            categories[n - 1].items.len() as int,
        )
    }
}

/// The number of items of the first `n` categories.
pub open spec fn count_items(categories: Seq<CategoryModel>, n: int) -> int
    decreases n,
{
    if n <= 0 {
        0
    } else {
        count_items(categories, n - 1) + categories[n - 1].items.len()
    }
}

/// The pages that a compile writes: the front page, then for each category
/// its page and the pages of its items.
pub open spec fn site_pages(
    site: SiteModel,
    title: Seq<char>,
    rendered: RenderedModel,
    now: Seq<char>,
) -> Seq<PageModel> {
    seq![index_page(title, rendered.index, now)] + pages_of_categories(
        site.categories,
        rendered.categories,
        now,
        site.categories.len() as int,
    )
}

/// The attachments that a compile writes: those of each item, in the order
/// of the items.
pub open spec fn site_files(site: SiteModel, now: Seq<char>) -> Seq<StoredAttachmentModel> {
    files_of_categories(site.categories, now, site.categories.len() as int)
}

/// The pages and attachments that a compile writes.
#[derive(Debug)]
pub struct Snapshot {
    pub pages: Vec<Page>,
    pub attachments: Vec<StoredAttachment>,
}

/// What a compile did.
#[derive(Debug)]
pub struct CompileResult {
    pub success: bool,
    /// The files that the compile wrote beside the store: none.
    pub generated_files: Vec<String>,
    pub total_categories: usize,
    pub total_items: usize,
    pub total_attachments: usize,
}

/// The attachment map of an item: each original name with the new name.
fn link_pairs(item: &ContentItem) -> (pairs: Vec<(String, String)>)
    ensures
        link_models(pairs@) == item@.attachments.map_values(link_of()),
{
    let mut pairs: Vec<(String, String)> = Vec::new();
    let mut i: usize = 0;
    while i < item.attachments.len()
        invariant
            i <= item.attachments.len(),
            pairs.len() == i,
            forall|j: int|
                0 <= j < i ==> pairs@[j].0@ == item.attachments@[j].original_name@ && pairs@[j].1@
                    == item.attachments@[j].new_name@,
        decreases item.attachments.len() - i,
    {
        pairs.push(
            (item.attachments[i].original_name.clone(), item.attachments[i].new_name.clone()),
        );
        i += 1;
    }
    assert(link_models(pairs@) =~= item@.attachments.map_values(link_of()));
    pairs
}

/// The page of an item from its rendered HTML.
pub fn build_item_page(item: &ContentItem, html: &str, now: &str) -> (page: Page)
    ensures
        page@ == item_page(item@, html@, now@),
{
    let pairs = link_pairs(item);
    let content = replace_attachment_links(html, pairs.as_slice());
    Page {
        id: join2("item-", item.url.as_str()),
        slug: item.url.clone(),
        page_type: PageType::Item,
        title: item.title.clone(),
        content,
        category: Some(item.category.clone()),
        updated_at: copy_str(now),
    }
}

/// Appends the attachments of `item`, as the store keeps them, to `out`.
fn push_item_files(out: &mut Vec<StoredAttachment>, item: &ContentItem, now: &str)
    ensures
        stored_view(final(out)@) == stored_view(old(out)@) + item@.attachments.map_values(
            stored_of(item@.url, now@),
        ),
{
    let ghost start = stored_view(out@);
    let ghost all = item@.attachments.map_values(stored_of(item@.url, now@));
    let mut i: usize = 0;
    assert(start + all.take(0) =~= start);
    while i < item.attachments.len()
        invariant
            i <= item.attachments.len(),
            all == item@.attachments.map_values(stored_of(item@.url, now@)),
            stored_view(out@) == start + all.take(i as int),
        decreases item.attachments.len() - i,
    {
        let a = &item.attachments[i];
        let ghost before = stored_view(out@);
        let stored = StoredAttachment {
            id: join2("attachment-", a.new_name.as_str()),
            slug: item.url.clone(),
            filename: a.new_name.clone(),
            original_name: a.original_name.clone(),
            mime_type: a.mime_type.clone(),
            file_data: copy_bytes(&a.file_data),
            file_size: a.file_size,
            updated_at: copy_str(now),
        };
        assert(stored@ == all[i as int]);
        out.push(stored);
        assert(stored_view(out@) =~= before.push(all[i as int]));
        assert(start + all.take(i + 1) =~= (start + all.take(i as int)).push(all[i as int]));
        i += 1;
    }
    assert(all.take(item.attachments.len() as int) =~= all);
}

/// Builds what a compile writes from the content of the site and its
/// rendered pages: a page for the front page, for every category and for
/// every item, the item pages with their references to attachments
/// rewritten, and every attachment as the store keeps it. Nothing is built
/// where `rendered` does not hold one page for each page of the site.
pub fn build_snapshot(site: &SiteContent, title: &str, rendered: &Rendered, now: &str) -> (r:
    Option<Snapshot>)
    ensures
        match r {
            Some(s) => fits(site@, rendered@) && pages_view(s.pages@) == site_pages(
                site@,
                title@,
                rendered@,
                now@,
            ) && stored_view(s.attachments@) == site_files(site@, now@) && s.pages.len() == 1
                + site@.categories.len() + count_items(
                site@.categories,
                site@.categories.len() as int,
            ),
            None => !fits(site@, rendered@),
        },
{
    if site.categories.len() != rendered.categories.len() {
        return None;
    }
    let ghost cats = site@.categories;
    let ghost rs = rendered@.categories;
    let mut pages: Vec<Page> = Vec::new();
    let mut attachments: Vec<StoredAttachment> = Vec::new();
    pages.push(
        Page {
            id: copy_str("index"),
            slug: copy_str("index"),
            page_type: PageType::Index,
            title: copy_str(title),
            content: rendered.index.clone(),
            category: None,
            updated_at: copy_str(now),
        },
    );
    let ghost first = index_page(title@, rendered@.index, now@);
    assert(pages_view(pages@) =~= seq![first] + pages_of_categories(cats, rs, now@, 0));
    assert(stored_view(attachments@) =~= files_of_categories(cats, now@, 0));
    let mut c: usize = 0;
    while c < site.categories.len()
        invariant
            c <= site.categories.len(),
            site.categories.len() == rendered.categories.len(),
            cats == site@.categories,
            rs == rendered@.categories,
            first == index_page(title@, rendered@.index, now@),
            forall|k: int| 0 <= k < c ==> (#[trigger] cats[k]).items.len() == rs[k].items.len(),
            pages_view(pages@) == seq![first] + pages_of_categories(cats, rs, now@, c as int),
            stored_view(attachments@) == files_of_categories(cats, now@, c as int),
            pages.len() == 1 + c + count_items(cats, c as int),
        decreases site.categories.len() - c,
    {
        let category = &site.categories[c];
        let rc = &rendered.categories[c];
        assert(cats[c as int] == category@);
        assert(rs[c as int] == rc@);
        if category.items.len() != rc.items.len() {
            return None;
        }
        let ghost pages_before = pages_view(pages@);
        let ghost files_before = stored_view(attachments@);
        let ghost items = category@.items;
        let ghost htmls = rc@.items;
        pages.push(
            Page {
                id: join2("category-", category.url.as_str()),
                slug: category.url.clone(),
                page_type: PageType::Category,
                title: category.name.clone(),
                content: rc.page.clone(),
                category: None,
                updated_at: copy_str(now),
            },
        );
        let ghost head = category_page(category@, rc@.page, now@);
        assert(pages_view(pages@) =~= pages_before + (seq![head] + item_pages(
            items,
            htmls,
            now@,
            0,
        )));
        assert(files_before + item_files(items, now@, 0) =~= files_before);
        let mut i: usize = 0;
        while i < category.items.len()
            invariant
                i <= category.items.len(),
                category.items.len() == rc.items.len(),
                items == category@.items,
                htmls == rc@.items,
                pages_view(pages@) == pages_before + (seq![head] + item_pages(
                    items,
                    htmls,
                    now@,
                    i as int,
                )),
                stored_view(attachments@) == files_before + item_files(items, now@, i as int),
                pages.len() == 2 + c + count_items(cats, c as int) + i,
            decreases category.items.len() - i,
        {
            let item = &category.items[i];
            assert(items[i as int] == item@);
            assert(htmls[i as int] == rc.items@[i as int]@);
            let ghost pages_here = pages_view(pages@);
            let ghost files_here = stored_view(attachments@);
            let page = build_item_page(item, rc.items[i].as_str(), now);
            pages.push(page);
            push_item_files(&mut attachments, item, now);
            proof {
                let grown = item_pages(items, htmls, now@, i + 1);
                assert(pages_view(pages@) =~= pages_here.push(page@));
                assert(pages_before + (seq![head] + grown) =~= (pages_before + (seq![head]
                    + item_pages(items, htmls, now@, i as int))).push(page@));
                assert(files_before + item_files(items, now@, i + 1) =~= files_here
                    + item@.attachments.map_values(stored_of(item@.url, now@)));
            }
            i += 1;
        }
        proof {
            assert(pages_before + category_pages(cats[c as int], rs[c as int], now@)
                =~= pages_view(pages@));
            assert(seq![first] + pages_of_categories(cats, rs, now@, c + 1) =~= (seq![first]
                + pages_of_categories(cats, rs, now@, c as int)) + category_pages(
                cats[c as int],
                rs[c as int],
                now@,
            ));
        }
        c += 1;
    }
    Some(Snapshot { pages, attachments })
}

/// The times of the four steps of a compile that read the clock.
#[derive(Debug)]
pub struct CompileTimes {
    /// When the pages were built.
    pub built: String,
    /// When the pages were written.
    pub pages: String,
    /// When the attachments were written.
    pub attachments: String,
    /// When the compile was done.
    pub finished: String,
}

/// A `CompileTimes` with its texts as sequences of characters.
pub struct TimesModel {
    pub built: Seq<char>,
    pub pages: Seq<char>,
    pub attachments: Seq<char>,
    pub finished: Seq<char>,
}

impl View for CompileTimes {
    type V = TimesModel;

    open spec fn view(&self) -> TimesModel {
        TimesModel {
            built: self.built@,
            pages: self.pages@,
            attachments: self.attachments@,
            finished: self.finished@,
        }
    }
}

/// The store after a compile: the pages are written first, the attachments
/// second, the time of the compile last. Rows under other keys stay.
pub open spec fn compiled_store(
    store: StoreModel,
    site: SiteModel,
    title: Seq<char>,
    rendered: RenderedModel,
    times: TimesModel,
) -> StoreModel {
    metadata_set(
        attachments_saved(
            pages_saved(store, site_pages(site, title, rendered, times.built), times.pages),
            site_files(site, times.built),
            times.attachments,
        ),
        compile_time_key(),
        times.finished,
    )
}

/// Whether the renderer may have answered a request for the page of item
/// `i` of category `c` with `answer`.
pub open spec fn item_answer<R: Renderer>(
    renderer: &R,
    site: &SiteContent,
    c: int,
    i: int,
    answer: Result<String, String>,
) -> bool {
    call_ensures(R::render_item, (renderer, &site.categories@[c].items@[i]), answer)
}

/// Whether the renderer may have answered a request for the page of
/// category `c` with `answer`.
pub open spec fn category_answer<R: Renderer>(
    renderer: &R,
    site: &SiteContent,
    c: int,
    answer: Result<String, String>,
) -> bool {
    call_ensures(R::render_category, (renderer, &site.categories@[c]), answer)
}

/// Whether the renderer may have answered a request for the front page with
/// `answer`.
pub open spec fn index_answer<R: Renderer>(
    renderer: &R,
    site: &SiteContent,
    answer: Result<String, String>,
) -> bool {
    call_ensures(R::render_index, (renderer, site), answer)
}

/// Whether the pages of category `c` are answers of the renderer: the
/// category's page to a request for it, and the page of each item to a
/// request for that item.
pub open spec fn category_rendered_by<R: Renderer>(
    renderer: &R,
    site: &SiteContent,
    c: int,
    rendered: RenderedCategory,
) -> bool {
    &&& category_answer(renderer, site, c, Ok(rendered.page))
    &&& rendered.items.len() == site.categories@[c].items.len()
    &&& forall|i: int|
        0 <= i < rendered.items.len() ==> item_answer(
            renderer,
            site,
            c,
            i,
            Ok(#[trigger] rendered.items@[i]),
        )
}

/// Whether `rendered` is what the renderer answered for `site`: one page for
/// each page of the site, each an answer of the renderer to the request for
/// that page.
pub open spec fn rendered_by<R: Renderer>(renderer: &R, site: &SiteContent, rendered: Rendered) -> bool {
    &&& index_answer(renderer, site, Ok(rendered.index))
    &&& rendered.categories.len() == site.categories.len()
    &&& forall|c: int|
        0 <= c < rendered.categories.len() ==> category_rendered_by(
            renderer,
            site,
            c,
            #[trigger] rendered.categories@[c],
        )
}

/// Whether `message` is a failure that the renderer answered to a request
/// for a page of `site`.
pub open spec fn render_failed<R: Renderer>(renderer: &R, site: &SiteContent, message: String) -> bool {
    ||| index_answer(renderer, site, Err(message))
    ||| exists|c: int|
        0 <= c < site.categories.len() && #[trigger] category_answer(
            renderer,
            site,
            c,
            Err(message),
        )
    ||| exists|c: int, i: int|
        0 <= c < site.categories.len() && 0 <= i < site.categories@[c].items.len()
            && #[trigger] item_answer(renderer, site, c, i, Err(message))
}

/// Pages that the renderer answered for a site are one for each page of the
/// site.
pub proof fn lemma_rendered_fits<R: Renderer>(renderer: &R, site: &SiteContent, rendered: Rendered)
    requires
        rendered_by(renderer, site, rendered),
    ensures
        fits(site@, rendered@),
{
    let cats = site@.categories;
    let rs = rendered@.categories;
    assert forall|k: int| 0 <= k < cats.len() implies (#[trigger] cats[k]).items.len()
        == rs[k].items.len() by {
        assert(cats[k] == site.categories@[k]@);
        assert(rs[k] == rendered.categories@[k]@);
        assert(category_rendered_by(renderer, site, k, rendered.categories@[k]));
    }
}

/// Whether `after` is the store `before` after a compile of a site with the
/// content `content`: for some answers of the renderer to the requests for
/// the pages of the site, and some times.
pub open spec fn compiled<R: Renderer>(
    renderer: &R,
    before: StoreModel,
    after: StoreModel,
    content: SiteModel,
    title: Seq<char>,
) -> bool {
    exists|site: SiteContent, rendered: Rendered, times: TimesModel|
        site@ == content && rendered_by(renderer, &site, rendered) && after
            == #[trigger] compiled_store(before, site@, title, rendered@, times)
}

/// Whether `message` is a failure that the renderer answered to a request
/// for a page of a site with the content `content`.
pub open spec fn refused<R: Renderer>(renderer: &R, content: SiteModel, message: String) -> bool {
    exists|site: SiteContent| site@ == content && #[trigger] render_failed(renderer, &site, message)
}

/// Whether `result` reports a compile of `site` that went well.
pub open spec fn reports(result: CompileResult, site: SiteModel) -> bool {
    &&& result.success
    &&& result.generated_files@.len() == 0
    &&& result.total_categories == site.categories.len()
    &&& result.total_items == count_items(site.categories, site.categories.len() as int)
    &&& result.total_attachments == site_files(site, Seq::empty()).len()
}

/// The number of attachments that a compile writes does not depend on the
/// time.
pub proof fn lemma_files_len(categories: Seq<CategoryModel>, a: Seq<char>, b: Seq<char>, n: int)
    ensures
        files_of_categories(categories, a, n).len() == files_of_categories(categories, b, n).len(),
    decreases n,
{
    if n > 0 {
        lemma_files_len(categories, a, b, n - 1);
        lemma_item_files_len(
            categories[n - 1].items,
            a,
            b,
            categories[n - 1].items.len() as int,
        );
    }
}

/// The number of attachments of the first `n` items does not depend on the
/// time.
pub proof fn lemma_item_files_len(items: Seq<ItemModel>, a: Seq<char>, b: Seq<char>, n: int)
    ensures
        item_files(items, a, n).len() == item_files(items, b, n).len(),
    decreases n,
{
    if n > 0 {
        lemma_item_files_len(items, a, b, n - 1);
    }
}

/// A count of items is not negative.
pub proof fn lemma_count_items(categories: Seq<CategoryModel>, n: int)
    ensures
        count_items(categories, n) >= 0,
    decreases n,
{
    if n > 0 {
        lemma_count_items(categories, n - 1);
    }
}

/// The error for rendered pages that are not one for each page of the site.
pub open spec fn misfit_error() -> CompileErrorModel {
    CompileErrorModel::Render("rendered pages do not match the content"@)
}

/// Compiles a site: owns the settings, the scanner, the renderer and the
/// store.
pub struct Compiler<R: Renderer> {
    pub config: Config,
    pub scanner: Scanner,
    pub renderer: R,
    pub storage: StorageDB,
}

impl<R: Renderer> Compiler<R> {
    /// A compiler for the site that `config` describes, with the renderer and
    /// the store that it is to use.
    pub fn new(config: Config, renderer: R, storage: StorageDB) -> (c: Self)
        requires
            storage.wf(),
        ensures
            c.storage == storage,
            c.storage.wf(),
            c.config == config,
            c.scanner.content_dir@ == config.paths.content_dir@,
    {
        let scanner = Scanner::new(config.paths.content_dir.clone());
        Compiler { config, scanner, renderer, storage }
    }

    /// Has every page of `site` rendered: the front page first, then each
    /// category's page, and after each category's page the pages of its
    /// items. The pages handed out are the renderer's answers to these
    /// requests. The first failure of the renderer ends the walk and is the
    /// error.
    pub fn render_site(&self, site: &SiteContent) -> (r: Result<Rendered, CompileError>)
        ensures
            match r {
                Ok(rendered) => rendered_by(&self.renderer, site, rendered) && fits(
                    site@,
                    rendered@,
                ),
                Err(e) => e matches CompileError::Render(m) && render_failed(
                    &self.renderer,
                    site,
                    m,
                ),
            },
    {
        let index = match self.renderer.render_index(site) {
            Ok(html) => html,
            Err(m) => {
                return Err(CompileError::Render(m));
            },
        };
        let mut categories: Vec<RenderedCategory> = Vec::new();
        let mut c: usize = 0;
        while c < site.categories.len()
            invariant
                c <= site.categories.len(),
                categories.len() == c,
                forall|k: int|
                    0 <= k < c ==> category_rendered_by(
                        &self.renderer,
                        site,
                        k,
                        #[trigger] categories@[k],
                    ),
            decreases site.categories.len() - c,
        {
            let category = &site.categories[c];
            let page = match self.renderer.render_category(category) {
                Ok(html) => html,
                Err(m) => {
                    assert(category_answer(&self.renderer, site, c as int, Err(m)));
                    return Err(CompileError::Render(m));
                },
            };
            let mut items: Vec<String> = Vec::new();
            let mut i: usize = 0;
            while i < category.items.len()
                invariant
                    i <= category.items.len(),
                    c < site.categories.len(),
                    *category == site.categories@[c as int],
                    items.len() == i,
                    forall|j: int|
                        0 <= j < i ==> item_answer(
                            &self.renderer,
                            site,
                            c as int,
                            j,
                            Ok(#[trigger] items@[j]),
                        ),
                decreases category.items.len() - i,
            {
                match self.renderer.render_item(&category.items[i]) {
                    Ok(html) => {
                        assert(item_answer(&self.renderer, site, c as int, i as int, Ok(html)));
                        items.push(html);
                    },
                    Err(m) => {
                        assert(item_answer(&self.renderer, site, c as int, i as int, Err(m)));
                        return Err(CompileError::Render(m));
                    },
                }
                i += 1;
            }
            assert(category_answer(&self.renderer, site, c as int, Ok(page)));
            categories.push(RenderedCategory { page, items });
            c += 1;
        }
        let rendered = Rendered { index, categories };
        proof {
            lemma_rendered_fits(&self.renderer, site, rendered);
        }
        Ok(rendered)
    }

    /// Compiles the site from what was read off its content directory, with
    /// rendered pages and times that are given. The content is scanned; the
    /// pages and attachments are built; the pages are written, then the
    /// attachments, then the time of the compile. A failure of the scan, or
    /// rendered pages that are not one for each page of the site, end the
    /// compile before anything is written.
    pub fn compile_at(&mut self, root: &Listing, rendered: &Rendered, times: &CompileTimes) -> (r:
        Result<CompileResult, CompileError>)
        requires
            old(self).storage.wf(),
        ensures
            final(self).storage.wf(),
            final(self).scanner == old(self).scanner,
            final(self).config == old(self).config,
            match site_of(old(self).scanner.content_dir@, *root) {
                Err(e) => r matches Err(x) && x@ == e && final(self).storage@ == old(
                    self,
                ).storage@,
                Ok(site) => if fits(site, rendered@) {
                    r matches Ok(result) && reports(result, site) && final(self).storage@
                        == compiled_store(
                        old(self).storage@,
                        site,
                        old(self).config.site.title@,
                        rendered@,
                        times@,
                    )
                } else {
                    r matches Err(x) && x@ == misfit_error() && final(self).storage@ == old(
                        self,
                    ).storage@
                },
            },
    {
        match self.scanner.scan(root) {
            Err(e) => Err(e),
            Ok(site) => self.store_site(&site, rendered, times),
        }
    }

    /// Writes a scanned site with its rendered pages to the store, at times
    /// that are given: the pages and attachments are built; the pages are
    /// written, then the attachments, then the time of the compile. Rendered
    /// pages that are not one for each page of the site are refused before
    /// anything is written.
    pub fn store_site(&mut self, site: &SiteContent, rendered: &Rendered, times: &CompileTimes) -> (r:
        Result<CompileResult, CompileError>)
        requires
            old(self).storage.wf(),
        ensures
            final(self).storage.wf(),
            final(self).scanner == old(self).scanner,
            final(self).config == old(self).config,
            if fits(site@, rendered@) {
                r matches Ok(result) && reports(result, site@) && final(self).storage@
                    == compiled_store(
                    old(self).storage@,
                    site@,
                    old(self).config.site.title@,
                    rendered@,
                    times@,
                )
            } else {
                r matches Err(x) && x@ == misfit_error() && final(self).storage@ == old(
                    self,
                ).storage@
            },
    {
        let snapshot = match build_snapshot(
            site,
            self.config.site.title.as_str(),
            rendered,
            times.built.as_str(),
        ) {
            None => {
                return Err(
                    CompileError::Render(copy_str("rendered pages do not match the content")),
                );
            },
            Some(s) => s,
        };
        self.storage.save_pages_batch_at(snapshot.pages.as_slice(), times.pages.as_str());
        self.storage.save_attachments_batch_at(
            snapshot.attachments.as_slice(),
            times.attachments.as_str(),
        );
        self.storage.update_compile_time_at(times.finished.as_str());
        proof {
            lemma_count_items(site@.categories, site@.categories.len() as int);
            lemma_files_len(
                site@.categories,
                times.built@,
                Seq::empty(),
                site@.categories.len() as int,
            );
        }
        Ok(
            CompileResult {
                success: true,
                generated_files: Vec::new(),
                total_categories: site.categories.len(),
                total_items: snapshot.pages.len() - 1 - site.categories.len(),
                total_attachments: snapshot.attachments.len(),
            },
        )
    }

    /// Compiles the site from what was read off its content directory. The
    /// content is scanned, every page is rendered, and only then the pages
    /// are written to the store, the attachments after them, and the time of
    /// the compile last. The first failure of the scan or of the renderer
    /// ends the compile and leaves the store as it was.
    pub fn compile(&mut self, root: &Listing) -> (r: Result<CompileResult, CompileError>)
        requires
            old(self).storage.wf(),
        ensures
            final(self).storage.wf(),
            final(self).scanner == old(self).scanner,
            final(self).config == old(self).config,
            match site_of(old(self).scanner.content_dir@, *root) {
                Err(e) => r matches Err(x) && x@ == e && final(self).storage@ == old(
                    self,
                ).storage@,
                Ok(site) => match r {
                    Err(x) => x matches CompileError::Render(m) && refused(
                        &old(self).renderer,
                        site,
                        m,
                    ) && final(self).storage@ == old(self).storage@,
                    Ok(result) => reports(result, site) && compiled(
                        &old(self).renderer,
                        old(self).storage@,
                        final(self).storage@,
                        site,
                        old(self).config.site.title@,
                    ),
                },
            },
    {
        let site = match self.scanner.scan(root) {
            Err(e) => {
                return Err(e);
            },
            Ok(site) => site,
        };
        let rendered = match self.render_site(&site) {
            Err(e) => {
                return Err(e);
            },
            Ok(rendered) => rendered,
        };
        let built = current_timestamp();
        let snapshot = match build_snapshot(
            &site,
            self.config.site.title.as_str(),
            &rendered,
            built.as_str(),
        ) {
            None => {
                return Err(
                    CompileError::Render(copy_str("rendered pages do not match the content")),
                );
            },
            Some(s) => s,
        };
        let pages = current_timestamp();
        self.storage.save_pages_batch_at(snapshot.pages.as_slice(), pages.as_str());
        let attachments = current_timestamp();
        let ghost written = self.storage@;
        if snapshot.attachments.len() > 0 {
            self.storage.save_attachments_batch_at(
                snapshot.attachments.as_slice(),
                attachments.as_str(),
            );
        } else {
            proof {
                let none = crate::page::stamped_attachments(
                    stored_view(snapshot.attachments@),
                    attachments@,
                );
                assert(none =~= Seq::<StoredAttachmentModel>::empty());
            }
        }
        assert(self.storage@ == attachments_saved(
            written,
            stored_view(snapshot.attachments@),
            attachments@,
        ));
        let finished = current_timestamp();
        self.storage.update_compile_time_at(finished.as_str());
        proof {
            lemma_count_items(site@.categories, site@.categories.len() as int);
            lemma_files_len(
                site@.categories,
                built@,
                Seq::empty(),
                site@.categories.len() as int,
            );
            let times = TimesModel {
                built: built@,
                pages: pages@,
                attachments: attachments@,
                finished: finished@,
            };
            assert(self.storage@ == compiled_store(
                old(self).storage@,
                site@,
                old(self).config.site.title@,
                rendered@,
                times,
            ));
        }
        Ok(
            CompileResult {
                success: true,
                generated_files: Vec::new(),
                total_categories: site.categories.len(),
                total_items: snapshot.pages.len() - 1 - site.categories.len(),
                total_attachments: snapshot.attachments.len(),
            },
        )
    }
}

/// The pages of the first `n` items are the same at every time, but for the
/// time itself.
proof fn lemma_item_pages_time(
    items: Seq<ItemModel>,
    htmls: Seq<Seq<char>>,
    a: Seq<char>,
    b: Seq<char>,
    n: int,
)
    ensures
        item_pages(items, htmls, b, n) == stamped_pages(item_pages(items, htmls, a, n), b),
    decreases n,
{
    if n > 0 {
        lemma_item_pages_time(items, htmls, a, b, n - 1);
    }
    assert(item_pages(items, htmls, b, n) =~= stamped_pages(item_pages(items, htmls, a, n), b));
}

/// The attachments of the first `n` items are the same at every time, but for
/// the time itself.
proof fn lemma_item_files_time(items: Seq<ItemModel>, a: Seq<char>, b: Seq<char>, n: int)
    ensures
        item_files(items, b, n) == stamped_attachments(item_files(items, a, n), b),
    decreases n,
{
    if n > 0 {
        lemma_item_files_time(items, a, b, n - 1);
    }
    assert(item_files(items, b, n) =~= stamped_attachments(item_files(items, a, n), b));
}

/// The pages of the first `n` categories are the same at every time, but for
/// the time itself.
proof fn lemma_category_pages_time(
    categories: Seq<CategoryModel>,
    rendered: Seq<RenderedCategoryModel>,
    a: Seq<char>,
    b: Seq<char>,
    n: int,
)
    ensures
        pages_of_categories(categories, rendered, b, n) == stamped_pages(
            pages_of_categories(categories, rendered, a, n),
            b,
        ),
    decreases n,
{
    if n > 0 {
        lemma_category_pages_time(categories, rendered, a, b, n - 1);
        let c = categories[n - 1];
        let r = rendered[n - 1];
        lemma_item_pages_time(c.items, r.items, a, b, c.items.len() as int);
        assert(category_pages(c, r, b) =~= stamped_pages(category_pages(c, r, a), b));
    }
    assert(pages_of_categories(categories, rendered, b, n) =~= stamped_pages(
        pages_of_categories(categories, rendered, a, n),
        b,
    ));
}

/// The attachments of the first `n` categories are the same at every time,
/// but for the time itself.
proof fn lemma_category_files_time(categories: Seq<CategoryModel>, a: Seq<char>, b: Seq<char>, n: int)
    ensures
        files_of_categories(categories, b, n) == stamped_attachments(
            files_of_categories(categories, a, n),
            b,
        ),
    decreases n,
{
    if n > 0 {
        lemma_category_files_time(categories, a, b, n - 1);
        let items = categories[n - 1].items;
        lemma_item_files_time(items, a, b, items.len() as int);
    }
    assert(files_of_categories(categories, b, n) =~= stamped_attachments(
        files_of_categories(categories, a, n),
        b,
    ));
}

/// What a compile writes does not depend on when it runs, but for the times
/// in the rows: the pages and attachments built at one time are those built
/// at another, stamped with the other time.
pub proof fn lemma_snapshot_time(
    site: SiteModel,
    title: Seq<char>,
    rendered: RenderedModel,
    a: Seq<char>,
    b: Seq<char>,
)
    ensures
        site_pages(site, title, rendered, b) == stamped_pages(
            site_pages(site, title, rendered, a),
            b,
        ),
        site_files(site, b) == stamped_attachments(site_files(site, a), b),
{
    lemma_category_pages_time(
        site.categories,
        rendered.categories,
        a,
        b,
        site.categories.len() as int,
    );
    lemma_category_files_time(site.categories, a, b, site.categories.len() as int);
    assert(site_pages(site, title, rendered, b) =~= stamped_pages(
        site_pages(site, title, rendered, a),
        b,
    ));
}

/// A page as it is but for the time of writing.
pub open spec fn same_page(p: PageModel, q: PageModel) -> bool {
    q == stamped_page(p, q.updated_at)
}

/// An attachment as it is but for the time of writing.
pub open spec fn same_file(a: StoredAttachmentModel, b: StoredAttachmentModel) -> bool {
    b == stamped_attachment(a, b.updated_at)
}

/// Compiling an unchanged site a second time, with the same rendered pages,
/// changes no page and no attachment but for the times in the rows: the
/// store then holds a page under a slug exactly where it held one after the
/// first compile, with the same content, and an attachment under a file name
/// exactly where it held one, with the same bytes.
pub proof fn lemma_compile_twice(
    store: StoreModel,
    site: SiteModel,
    title: Seq<char>,
    rendered: RenderedModel,
    first: TimesModel,
    second: TimesModel,
)
    requires
        valid_store(store),
    ensures
        ({
            let one = compiled_store(store, site, title, rendered, first);
            let two = compiled_store(one, site, title, rendered, second);
            &&& valid_store(one)
            &&& valid_store(two)
            &&& forall|slug: Seq<char>|
                match #[trigger] get(one.pages, slug) {
                    Some(p) => get(two.pages, slug) matches Some(q) && same_page(p, q),
                    None => get(two.pages, slug) is None,
                }
            &&& forall|name: Seq<char>|
                match #[trigger] get(one.attachments, name) {
                    Some(a) => get(two.attachments, name) matches Some(b) && same_file(a, b),
                    None => get(two.attachments, name) is None,
                }
        }),
{
    let one = compiled_store(store, site, title, rendered, first);
    let two = compiled_store(one, site, title, rendered, second);
    let pages = stamped_pages(site_pages(site, title, rendered, first.built), first.pages);
    let pages_again = stamped_pages(
        site_pages(site, title, rendered, second.built),
        second.pages,
    );
    let files = stamped_attachments(site_files(site, first.built), first.attachments);
    let files_again = stamped_attachments(site_files(site, second.built), second.attachments);
    let restamp_page = |p: PageModel| stamped_page(p, second.pages);
    let restamp_file = |a: StoredAttachmentModel| stamped_attachment(a, second.attachments);
    lemma_snapshot_time(site, title, rendered, first.built, second.built);
    assert(pages_again =~= pages.map_values(restamp_page));
    assert(files_again =~= files.map_values(restamp_file));
    lemma_put_all(store.pages, pages);
    lemma_put_all(store.attachments, files);
    lemma_put(store.metadata, MetadataModel { key: compile_time_key(), value: first.finished });
    lemma_put_all(one.pages, pages_again);
    lemma_put_all(one.attachments, files_again);
    lemma_put(one.metadata, MetadataModel { key: compile_time_key(), value: second.finished });
    assert forall|slug: Seq<char>|
        match #[trigger] get(one.pages, slug) {
            Some(p) => get(two.pages, slug) matches Some(q) && same_page(p, q),
            None => get(two.pages, slug) is None,
        } by {
        lemma_get_put_all(store.pages, pages, slug);
        lemma_get_put_all(one.pages, pages_again, slug);
        lemma_last_with_key_map(pages, restamp_page, slug);
    }
    assert forall|name: Seq<char>|
        match #[trigger] get(one.attachments, name) {
            Some(a) => get(two.attachments, name) matches Some(b) && same_file(a, b),
            None => get(two.attachments, name) is None,
        } by {
        lemma_get_put_all(store.attachments, files, name);
        lemma_get_put_all(one.attachments, files_again, name);
        lemma_last_with_key_map(files, restamp_file, name);
    }
}

/// The attachments of the first `n` items hold a row for every attachment of
/// each of these items.
proof fn lemma_item_files_hold(items: Seq<ItemModel>, now: Seq<char>, n: int, i: int, k: int)
    requires
        0 <= i < n <= items.len(),
        0 <= k < items[i].attachments.len(),
    ensures
        item_files(items, now, n).contains(stored_of(items[i].url, now)(items[i].attachments[k])),
    decreases n,
{
    let before = item_files(items, now, n - 1);
    let last = items[n - 1].attachments.map_values(stored_of(items[n - 1].url, now));
    let all = item_files(items, now, n);
    if i < n - 1 {
        lemma_item_files_hold(items, now, n - 1, i, k);
        let row = stored_of(items[i].url, now)(items[i].attachments[k]);
        let m = choose|m: int| 0 <= m < before.len() && before[m] == row;
        assert(all[m] == row);
    } else {
        assert(all[before.len() + k] == last[k]);
    }
}

/// The attachments of the first `n` categories hold a row for every
/// attachment of every item of these categories.
proof fn lemma_category_files_hold(
    categories: Seq<CategoryModel>,
    now: Seq<char>,
    n: int,
    c: int,
    i: int,
    k: int,
)
    requires
        0 <= c < n <= categories.len(),
        0 <= i < categories[c].items.len(),
        0 <= k < categories[c].items[i].attachments.len(),
    ensures
        files_of_categories(categories, now, n).contains(
            stored_of(categories[c].items[i].url, now)(categories[c].items[i].attachments[k]),
        ),
    decreases n,
{
    let before = files_of_categories(categories, now, n - 1);
    let items = categories[n - 1].items;
    let last = item_files(items, now, items.len() as int);
    let all = files_of_categories(categories, now, n);
    let row = stored_of(categories[c].items[i].url, now)(categories[c].items[i].attachments[k]);
    if c < n - 1 {
        lemma_category_files_hold(categories, now, n - 1, c, i, k);
        let m = choose|m: int| 0 <= m < before.len() && before[m] == row;
        assert(all[m] == row);
    } else {
        lemma_item_files_hold(items, now, items.len() as int, i, k);
        let m = choose|m: int| 0 <= m < last.len() && last[m] == row;
        assert(all[before.len() + m] == row);
    }
}

/// After a compile the store holds, for every attachment of every item of
/// the site, a row under the attachment's new name, and that row is one of
/// the rows that the compile wrote.
pub proof fn lemma_compiled_attachment(
    store: StoreModel,
    site: SiteModel,
    title: Seq<char>,
    rendered: RenderedModel,
    times: TimesModel,
    c: int,
    i: int,
    k: int,
)
    requires
        valid_store(store),
        0 <= c < site.categories.len(),
        0 <= i < site.categories[c].items.len(),
        0 <= k < site.categories[c].items[i].attachments.len(),
    ensures
        ({
            let name = site.categories[c].items[i].attachments[k].new_name;
            let after = compiled_store(store, site, title, rendered, times);
            get(after.attachments, name) matches Some(row) && row.filename == name
                && stamped_attachments(site_files(site, times.built), times.attachments).contains(
                row,
            )
        }),
{
    let item = site.categories[c].items[i];
    let built = site_files(site, times.built);
    let files = stamped_attachments(built, times.attachments);
    let row = stored_of(item.url, times.built)(item.attachments[k]);
    lemma_category_files_hold(
        site.categories,
        times.built,
        site.categories.len() as int,
        c,
        i,
        k,
    );
    let m = choose|m: int| 0 <= m < built.len() && built[m] == row;
    assert(files[m] == stamped_attachment(row, times.attachments));
    crate::table::lemma_last_with_key_found(files, files[m]);
    lemma_get_put_all(
        pages_saved(store, site_pages(site, title, rendered, times.built), times.pages).attachments,
        files,
        row.filename,
    );
}

/// The page of an item with one attachment refers to the attachment by its
/// new name wherever the rendered HTML refers to it by the name its author
/// wrote.
pub proof fn lemma_item_page_refers(item: ItemModel, html: Seq<char>, now: Seq<char>)
    requires
        item.attachments.len() == 1,
        crate::text::contains_text(html, "attachment/"@ + item.attachments[0].original_name),
    ensures
        crate::text::contains_text(
            item_page(item, html, now).content,
            "attachment/"@ + item.attachments[0].new_name,
        ),
{
    let link = link_of()(item.attachments[0]);
    assert(item.attachments.map_values(link_of()) =~= seq![link]);
    crate::markdown::lemma_rewrite_single(html, link);
    crate::markdown::lemma_rewrite_one_brings(html, link);
}

/// The pages of the first `n` items hold the page of each of these items.
proof fn lemma_item_pages_hold(
    items: Seq<ItemModel>,
    htmls: Seq<Seq<char>>,
    now: Seq<char>,
    n: int,
    i: int,
)
    requires
        0 <= i < n <= items.len(),
    ensures
        item_pages(items, htmls, now, n).contains(item_page(items[i], htmls[i], now)),
    decreases n,
{
    let all = item_pages(items, htmls, now, n);
    let before = item_pages(items, htmls, now, n - 1);
    if i < n - 1 {
        lemma_item_pages_hold(items, htmls, now, n - 1, i);
        let page = item_page(items[i], htmls[i], now);
        let m = choose|m: int| 0 <= m < before.len() && before[m] == page;
        assert(all[m] == page);
    } else {
        assert(all[before.len() as int] == item_page(items[i], htmls[i], now));
    }
}

/// The pages of the first `n` categories hold the page of every item of
/// these categories.
proof fn lemma_category_pages_hold(
    categories: Seq<CategoryModel>,
    rendered: Seq<RenderedCategoryModel>,
    now: Seq<char>,
    n: int,
    c: int,
    i: int,
)
    requires
        0 <= c < n <= categories.len(),
        0 <= i < categories[c].items.len(),
    ensures
        pages_of_categories(categories, rendered, now, n).contains(
            item_page(categories[c].items[i], rendered[c].items[i], now),
        ),
    decreases n,
{
    let all = pages_of_categories(categories, rendered, now, n);
    let before = pages_of_categories(categories, rendered, now, n - 1);
    let page = item_page(categories[c].items[i], rendered[c].items[i], now);
    if c < n - 1 {
        lemma_category_pages_hold(categories, rendered, now, n - 1, c, i);
        let m = choose|m: int| 0 <= m < before.len() && before[m] == page;
        assert(all[m] == page);
    } else {
        let items = categories[c].items;
        let own = item_pages(items, rendered[c].items, now, items.len() as int);
        lemma_item_pages_hold(items, rendered[c].items, now, items.len() as int, i);
        let m = choose|m: int| 0 <= m < own.len() && own[m] == page;
        assert(category_pages(categories[c], rendered[c], now)[1 + m] == page);
        assert(all[before.len() + 1 + m] == page);
    }
}

/// After a compile the store holds the page of an item under the item's
/// slug, with the references to its attachments rewritten, where no other
/// page of the site has that slug.
pub proof fn lemma_compiled_item_page(
    store: StoreModel,
    site: SiteModel,
    title: Seq<char>,
    rendered: RenderedModel,
    times: TimesModel,
    c: int,
    i: int,
)
    requires
        valid_store(store),
        0 <= c < site.categories.len(),
        0 <= i < site.categories[c].items.len(),
        forall|k: int|
            0 <= k < site_pages(site, title, rendered, times.built).len() && (#[trigger] site_pages(
                site,
                title,
                rendered,
                times.built,
            )[k]).slug == site.categories[c].items[i].url ==> site_pages(
                site,
                title,
                rendered,
                times.built,
            )[k] == item_page(
                site.categories[c].items[i],
                rendered.categories[c].items[i],
                times.built,
            ),
    ensures
        get(
            compiled_store(store, site, title, rendered, times).pages,
            site.categories[c].items[i].url,
        ) == Some(
            stamped_page(
                item_page(
                    site.categories[c].items[i],
                    rendered.categories[c].items[i],
                    times.built,
                ),
                times.pages,
            ),
        ),
{
    let item = site.categories[c].items[i];
    let built = site_pages(site, title, rendered, times.built);
    let pages = stamped_pages(built, times.pages);
    let page = item_page(item, rendered.categories[c].items[i], times.built);
    lemma_category_pages_hold(
        site.categories,
        rendered.categories,
        times.built,
        site.categories.len() as int,
        c,
        i,
    );
    let inner = pages_of_categories(
        site.categories,
        rendered.categories,
        times.built,
        site.categories.len() as int,
    );
    let m = choose|m: int| 0 <= m < inner.len() && inner[m] == page;
    assert(built[1 + m] == page);
    assert(pages[1 + m] == stamped_page(page, times.pages));
    crate::table::lemma_last_with_key_found(pages, pages[1 + m]);
    let last = crate::table::last_with_key(pages, item.url)->0;
    let k = choose|k: int| 0 <= k < pages.len() && pages[k] == last;
    assert(pages[k] == stamped_page(built[k], times.pages));
    assert(built[k].slug == item.url);
    lemma_get_put_all(store.pages, pages, item.url);
}

/// The page of an item with one attachment does not refer to the attachment
/// by the name its author wrote, where the reference by that name and the
/// reference by the new name stand apart.
pub proof fn lemma_item_page_clear(item: ItemModel, html: Seq<char>, now: Seq<char>)
    requires
        item.attachments.len() == 1,
        crate::text::apart(
            "attachment/"@ + item.attachments[0].original_name,
            "attachment/"@ + item.attachments[0].new_name,
        ),
    ensures
        !crate::text::contains_text(
            item_page(item, html, now).content,
            "attachment/"@ + item.attachments[0].original_name,
        ),
{
    let link = link_of()(item.attachments[0]);
    assert(item.attachments.map_values(link_of()) =~= seq![link]);
    crate::markdown::lemma_rewrite_single(html, link);
    crate::markdown::lemma_rewrite_one_clears(html, link);
}

/// Whether a compile is under way, and how the last one ended.
#[derive(Debug)]
pub struct CompilerState {
    pub is_compiling: bool,
    pub last_compile_result: Option<String>,
}

impl CompilerState {
    /// The state before the first compile.
    pub fn new() -> (s: Self)
        ensures
            !s.is_compiling,
            s.last_compile_result is None,
    {
        CompilerState { is_compiling: false, last_compile_result: None }
    }
}

} // verus!
