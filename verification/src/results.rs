//! What a search shows of a page, and the site as the stored pages show it.

use crate::content::{
    categories_view, items_view, Category, CategoryModel, ContentItem, ItemModel, SiteContent,
    SiteModel,
};
use crate::page::{pages_view, Page, PageModel, PageType};
use crate::query::{item_of_category, lemma_filter_next};
use crate::text::{
    chars_of, copy_str, find_from, first_occurrence, list_view, lowercase, lowercase_of,
    push_str, str_eq, string_of,
};
use vstd::prelude::*;

verus! {

/// The smaller of two numbers.
pub open spec fn smaller(a: int, b: int) -> int {
    if a < b {
        a
    } else {
        b
    }
}

/// The snippet of `content` for a query of `query_len` characters that was
/// found at `found`. Where it was found, the snippet runs from 40 characters
/// before the place to 60 characters behind the query, within the content,
/// with three dots at each end where the content goes on. Where it was not
/// found, the snippet is the first 100 characters, with three dots where the
/// content goes on.
pub open spec fn snippet_at(content: Seq<char>, found: Option<int>, query_len: int) -> Seq<char> {
    let total = content.len() as int;
    match found {
        Some(p) => {
            let start = smaller(
                if p > 40 {
                    p - 40
                } else {
                    0
                },
                total,
            );
            let end = smaller(p + query_len + 60, total);
            let end = if end < start {
                start
            } else {
                end
            };
            (if start > 0 {
                "..."@
            } else {
                Seq::empty()
            }) + content.subrange(start, end) + (if end < total {
                "..."@
            } else {
                Seq::empty()
            })
        },
        None => if total > 100 {
            content.take(100) + "..."@
        } else {
            content
        },
    }
}

/// The snippet of `content` for `query`: the query is looked for in the
/// lower-case form of the content, in its own lower-case form.
pub open spec fn snippet_of(content: Seq<char>, query: Seq<char>) -> Seq<char> {
    snippet_at(
        content,
        first_occurrence(lowercase_of(content), lowercase_of(query), 0),
        query.len() as int,
    )
}

/// Cuts the snippet of `content` for a query of `query_len` characters that
/// was found at `found`.
pub fn cut_snippet(content: &str, found: Option<usize>, query_len: usize) -> (s: String)
    ensures
        s@ == snippet_at(
            content@,
            match found {
                Some(p) => Some(p as int),
                None => None,
            },
            query_len as int,
        ),
{
    let chars = chars_of(content);
    let total: usize = chars.len();
    match found {
        Some(p) => {
            let begin: usize = if p > 40 {
                p - 40
            } else {
                0
            };
            let start: usize = if begin < total {
                begin
            } else {
                total
            };
            let end: usize = if p >= total {
                total
            } else if query_len >= total - p {
                total
            } else if 60 >= total - p - query_len {
                total
            } else {
                p + query_len + 60
            };
            let end: usize = if end < start {
                start
            } else {
                end
            };
            let mut out: Vec<char> = Vec::new();
            if start > 0 {
                push_str(&mut out, "...");
            }
            let ghost head = out@;
            let mut i: usize = start;
            assert(head + chars@.subrange(start as int, start as int) =~= head);
            while i < end
                invariant
                    start <= i <= end <= chars.len(),
                    out@ == head + chars@.subrange(start as int, i as int),
                decreases end - i,
            {
                out.push(chars[i]);
                assert(chars@.subrange(start as int, i + 1) =~= chars@.subrange(
                    start as int,
                    i as int,
                ).push(chars@[i as int]));
                i += 1;
            }
            if end < total {
                push_str(&mut out, "...");
            } else {
                assert(out@ + Seq::<char>::empty() =~= out@);
            }
            string_of(&out)
        },
        None => {
            if total > 100 {
                let mut out: Vec<char> = Vec::new();
                let mut i: usize = 0;
                while i < 100
                    invariant
                        i <= 100 < chars.len(),
                        out@ == chars@.take(i as int),
                    decreases 100 - i,
                {
                    out.push(chars[i]);
                    assert(chars@.take(i + 1) =~= chars@.take(i as int).push(chars@[i as int]));
                    i += 1;
                }
                push_str(&mut out, "...");
                string_of(&out)
            } else {
                string_of(&chars)
            }
        },
    }
}

/// The snippet of `content` that a search for `query` shows: the surroundings
/// of the first place where the query stands, whatever the case of the
/// letters, or the beginning of the content where it stands nowhere.
pub fn extract_snippet(content: &str, query: &str) -> (s: String)
    ensures
        s@ == snippet_of(content@, query@),
{
    let lower = lowercase(content);
    let wanted = lowercase(query);
    let hay = chars_of(lower.as_str());
    let pat = chars_of(wanted.as_str());
    let found = find_from(&hay, &pat, 0);
    let query_len = chars_of(query).len();
    cut_snippet(content, found, query_len)
}

/// The item that the page of an item stands for: slug, title and content of
/// the page, and nothing else.
pub open spec fn item_from_page(category: Seq<char>) -> spec_fn(PageModel) -> ItemModel {
    |p: PageModel|
        ItemModel {
            category: category,
            item_name: p.slug,
            dir_name: p.slug,
            url: p.slug,
            file_path: Seq::empty(),
            title: p.title,
            date: None,
            author: None,
            description: None,
            html_content: p.content,
            attachments: Seq::empty(),
            tags: Seq::empty(),
        }
}

/// Whether `page` is the page of an item with a category.
pub open spec fn has_category(page: PageModel) -> bool {
    page.page_type == PageType::Item && page.category is Some
}

/// The categories of the item pages among `pages`, each once, in the order
/// in which they first occur.
pub open spec fn page_categories(pages: Seq<PageModel>) -> Seq<Seq<char>>
    decreases pages.len(),
{
    if pages.len() == 0 {
        Seq::empty()
    } else {
        let before = page_categories(pages.drop_last());
        let page = pages.last();
        if has_category(page) && !before.contains(page.category->0) {
            before.push(page.category->0)
        } else {
            before
        }
    }
}

/// The category with the name `name` as `pages` show it: the items of its
/// pages, in the order of the pages.
pub open spec fn category_from_pages(pages: Seq<PageModel>) -> spec_fn(Seq<char>) -> CategoryModel {
    |name: Seq<char>|
        CategoryModel {
            name: name,
            url: name,
            index_path: Seq::empty(),
            items: pages.filter(item_of_category(name)).map_values(item_from_page(name)),
            description: None,
        }
}

/// The site as `pages` show it: a category for every category of an item
/// page, in the order in which the categories first occur.
pub open spec fn site_from_pages(pages: Seq<PageModel>) -> SiteModel {
    SiteModel { categories: page_categories(pages).map_values(category_from_pages(pages)) }
}

/// Whether `name` is among `names`.
fn holds_name(names: &Vec<String>, name: &str) -> (r: bool)
    ensures
        r == list_view(names@).contains(name@),
{
    let mut i: usize = 0;
    while i < names.len()
        invariant
            i <= names.len(),
            forall|j: int| 0 <= j < i ==> list_view(names@)[j] != name@,
        decreases names.len() - i,
    {
        if str_eq(names[i].as_str(), name) {
            assert(list_view(names@)[i as int] == name@);
            return true;
        }
        i += 1;
    }
    false
}

/// The items of the pages of the category `name`.
fn items_of(pages: &[Page], name: &str) -> (items: Vec<ContentItem>)
    ensures
        items_view(items@) == pages_view(pages@).filter(item_of_category(name@)).map_values(
            item_from_page(name@),
        ),
{
    let ghost all = pages_view(pages@);
    let ghost keep = item_of_category(name@);
    let ghost make = item_from_page(name@);
    let mut items: Vec<ContentItem> = Vec::new();
    let mut i: usize = 0;
    proof {
        reveal(Seq::filter);
        assert(all.take(0) =~= Seq::<PageModel>::empty());
        assert(items_view(items@) =~= all.take(0).filter(keep).map_values(make));
    }
    while i < pages.len()
        invariant
            i <= pages.len(),
            all == pages_view(pages@),
            keep == item_of_category(name@),
            make == item_from_page(name@),
            items_view(items@) == all.take(i as int).filter(keep).map_values(make),
        decreases pages.len() - i,
    {
        let page = &pages[i];
        let ghost before = items_view(items@);
        let ghost kept = all.take(i as int).filter(keep);
        proof {
            lemma_filter_next(all, keep, i as int);
            assert(all[i as int] == page@);
        }
        let in_category: bool = match &page.category {
            Some(c) => str_eq(c.as_str(), name),
            None => false,
        };
        if page.page_type == PageType::Item && in_category {
            let attachments: Vec<crate::content::Attachment> = Vec::new();
            let tags: Vec<String> = Vec::new();
            assert(crate::content::attachments_view(attachments@) =~= Seq::empty());
            assert(list_view(tags@) =~= Seq::<Seq<char>>::empty());
            let item = ContentItem {
                category: copy_str(name),
                item_name: page.slug.clone(),
                dir_name: page.slug.clone(),
                url: page.slug.clone(),
                file_path: String::new(),
                title: page.title.clone(),
                date: None,
                author: None,
                description: None,
                html_content: page.content.clone(),
                attachments,
                tags,
            };
            assert(item@ == make(page@));
            items.push(item);
            assert(items_view(items@) =~= before.push(make(page@)));
            assert(kept.push(page@).map_values(make) =~= kept.map_values(make).push(make(page@)));
        }
        i += 1;
    }
    assert(all.take(pages.len() as int) =~= all);
    items
}

/// The site as the stored pages show it: the pages of items, by category.
/// Each category holds an item for each of its pages, in the order of the
/// pages; the categories stand in the order in which they first occur.
pub fn convert_pages_to_site_content(pages: &[Page]) -> (site: SiteContent)
    ensures
        site@ == site_from_pages(pages_view(pages@)),
{
    let ghost all = pages_view(pages@);
    let mut names: Vec<String> = Vec::new();
    let mut i: usize = 0;
    proof {
        assert(all.take(0) =~= Seq::<PageModel>::empty());
        assert(list_view(names@) =~= Seq::<Seq<char>>::empty());
    }
    while i < pages.len()
        invariant
            i <= pages.len(),
            all == pages_view(pages@),
            list_view(names@) == page_categories(all.take(i as int)),
        decreases pages.len() - i,
    {
        let page = &pages[i];
        let ghost before = list_view(names@);
        proof {
            assert(all.take(i + 1).drop_last() =~= all.take(i as int));
            assert(all.take(i + 1).last() == page@);
        }
        if page.page_type == PageType::Item {
            match &page.category {
                Some(c) => {
                    if !holds_name(&names, c.as_str()) {
                        names.push(c.clone());
                        assert(list_view(names@) =~= before.push(c@));
                    }
                },
                None => {},
            }
        }
        i += 1;
    }
    assert(all.take(pages.len() as int) =~= all);
    let ghost make = category_from_pages(all);
    let mut categories: Vec<Category> = Vec::new();
    let mut k: usize = 0;
    while k < names.len()
        invariant
            k <= names.len(),
            all == pages_view(pages@),
            make == category_from_pages(all),
            categories.len() == k,
            forall|j: int| 0 <= j < k ==> (#[trigger] categories@[j])@ == make(names@[j]@),
        decreases names.len() - k,
    {
        let name = &names[k];
        let items = items_of(pages, name.as_str());
        categories.push(
            Category {
                name: name.clone(),
                url: name.clone(),
                index_path: String::new(),
                items,
                description: None,
            },
        );
        k += 1;
    }
    assert(categories_view(categories@) =~= list_view(names@).map_values(make));
    SiteContent { categories }
}

} // verus!
