//! The content of a site after scanning: categories, their items, and the
//! attachments of each item.

use crate::order::{text_le, Rank, Sortable};
use crate::text::{copy_bytes, copy_list, copy_opt, list_view, opt_view};
use vstd::prelude::*;

verus! {

/// A file that belongs to an item.
#[derive(Debug)]
pub struct Attachment {
    /// The name of the file as its author wrote it.
    pub original_name: String,
    /// The name that the scan gave it: unique within its item.
    pub new_name: String,
    /// The extension of the file, without the dot.
    pub file_type: String,
    /// Where pages refer to it: `attachment/` and the new name.
    pub path: String,
    /// The bytes of the file.
    pub file_data: Vec<u8>,
    /// The number of its bytes.
    pub file_size: usize,
    /// Its MIME type, by its extension.
    pub mime_type: String,
}

/// An `Attachment` with its texts as sequences of characters.
pub struct AttachmentModel {
    pub original_name: Seq<char>,
    pub new_name: Seq<char>,
    pub file_type: Seq<char>,
    pub path: Seq<char>,
    pub file_data: Seq<u8>,
    pub file_size: usize,
    pub mime_type: Seq<char>,
}

impl View for Attachment {
    type V = AttachmentModel;

    open spec fn view(&self) -> AttachmentModel {
        AttachmentModel {
            original_name: self.original_name@,
            new_name: self.new_name@,
            file_type: self.file_type@,
            path: self.path@,
            file_data: self.file_data@,
            file_size: self.file_size,
            mime_type: self.mime_type@,
        }
    }
}

impl Clone for Attachment {
    fn clone(&self) -> (out: Self)
        ensures
            out@ == self@,
    {
        Attachment {
            original_name: self.original_name.clone(),
            new_name: self.new_name.clone(),
            file_type: self.file_type.clone(),
            path: self.path.clone(),
            file_data: copy_bytes(&self.file_data),
            file_size: self.file_size,
            mime_type: self.mime_type.clone(),
        }
    }
}

/// The models of a list of attachments.
pub open spec fn attachments_view(list: Seq<Attachment>) -> Seq<AttachmentModel> {
    list.map_values(|a: Attachment| a@)
}

/// A copy of a list of attachments.
pub fn copy_attachments(list: &Vec<Attachment>) -> (out: Vec<Attachment>)
    ensures
        attachments_view(out@) == attachments_view(list@),
{
    let mut out: Vec<Attachment> = Vec::new();
    let mut i: usize = 0;
    while i < list.len()
        invariant
            i <= list.len(),
            out.len() == i,
            forall|j: int| 0 <= j < i ==> out@[j]@ == list@[j]@,
        decreases list.len() - i,
    {
        out.push(list[i].clone());
        i += 1;
    }
    assert(attachments_view(out@) =~= attachments_view(list@));
    out
}

/// One entry of a category: a markdown document with what belongs to it.
#[derive(Debug)]
pub struct ContentItem {
    /// The name of the category.
    pub category: String,
    /// The name of the document, without `.md`.
    pub item_name: String,
    /// The name of the directory that holds the document.
    pub dir_name: String,
    /// The slug of the item's page: category, a dash, item name.
    pub url: String,
    /// The path of the document below the content directory.
    pub file_path: String,
    pub title: String,
    /// The day of the item, as year, month and day with dashes between.
    pub date: Option<String>,
    pub author: Option<String>,
    pub description: Option<String>,
    /// The body of the document as HTML.
    pub html_content: String,
    pub attachments: Vec<Attachment>,
    pub tags: Vec<String>,
}

/// A `ContentItem` with its texts as sequences of characters.
pub struct ItemModel {
    pub category: Seq<char>,
    pub item_name: Seq<char>,
    pub dir_name: Seq<char>,
    pub url: Seq<char>,
    pub file_path: Seq<char>,
    pub title: Seq<char>,
    pub date: Option<Seq<char>>,
    pub author: Option<Seq<char>>,
    pub description: Option<Seq<char>>,
    pub html_content: Seq<char>,
    pub attachments: Seq<AttachmentModel>,
    pub tags: Seq<Seq<char>>,
}

impl View for ContentItem {
    type V = ItemModel;

    open spec fn view(&self) -> ItemModel {
        ItemModel {
            category: self.category@,
            item_name: self.item_name@,
            dir_name: self.dir_name@,
            url: self.url@,
            file_path: self.file_path@,
            title: self.title@,
            date: opt_view(self.date),
            author: opt_view(self.author),
            description: opt_view(self.description),
            html_content: self.html_content@,
            attachments: attachments_view(self.attachments@),
            tags: list_view(self.tags@),
        }
    }
}

impl Clone for ContentItem {
    fn clone(&self) -> (out: Self)
        ensures
            out@ == self@,
    {
        ContentItem {
            category: self.category.clone(),
            item_name: self.item_name.clone(),
            dir_name: self.dir_name.clone(),
            url: self.url.clone(),
            file_path: self.file_path.clone(),
            title: self.title.clone(),
            date: copy_opt(&self.date),
            author: copy_opt(&self.author),
            description: copy_opt(&self.description),
            html_content: self.html_content.clone(),
            attachments: copy_attachments(&self.attachments),
            tags: copy_list(&self.tags),
        }
    }
}

impl Rank for ItemModel {
    /// Items with a day go first, later days before earlier ones; items
    /// without a day follow, in the order of their names.
    open spec fn precedes(&self, other: &Self) -> bool {
        match (self.date, other.date) {
            (Some(a), Some(b)) => text_le(b, a),
            (Some(_), None) => true,
            (None, Some(_)) => false,
            (None, None) => text_le(self.item_name, other.item_name),
        }
    }

    proof fn lemma_total(a: &Self, b: &Self) {
        match (a.date, b.date) {
            (Some(x), Some(y)) => crate::order::lemma_text_le_total(x, y),
            (None, None) => crate::order::lemma_text_le_total(a.item_name, b.item_name),
            _ => {},
        }
    }

    proof fn lemma_transitive(a: &Self, b: &Self, c: &Self) {
        match (a.date, b.date, c.date) {
            (Some(x), Some(y), Some(z)) => crate::order::lemma_text_le_transitive(z, y, x),
            (None, None, None) => crate::order::lemma_text_le_transitive(
                a.item_name,
                b.item_name,
                c.item_name,
            ),
            _ => {},
        }
    }
}

impl Sortable for ContentItem {
    type Model = ItemModel;

    open spec fn model(&self) -> ItemModel {
        self@
    }

    fn goes_before(&self, other: &Self) -> (r: bool) {
        match (&self.date, &other.date) {
            (Some(a), Some(b)) => crate::order::str_le(b.as_str(), a.as_str()),
            (Some(_), None) => true,
            (None, Some(_)) => false,
            (None, None) => crate::order::str_le(self.item_name.as_str(), other.item_name.as_str()),
        }
    }
}

/// The models of a list of items.
pub open spec fn items_view(list: Seq<ContentItem>) -> Seq<ItemModel> {
    list.map_values(|i: ContentItem| i@)
}

/// A copy of a list of items.
pub fn copy_items(list: &Vec<ContentItem>) -> (out: Vec<ContentItem>)
    ensures
        items_view(out@) == items_view(list@),
{
    let mut out: Vec<ContentItem> = Vec::new();
    let mut i: usize = 0;
    while i < list.len()
        invariant
            i <= list.len(),
            out.len() == i,
            forall|j: int| 0 <= j < i ==> out@[j]@ == list@[j]@,
        decreases list.len() - i,
    {
        out.push(list[i].clone());
        i += 1;
    }
    assert(items_view(out@) =~= items_view(list@));
    out
}

/// A group of items: one directory below the content directory.
#[derive(Debug)]
pub struct Category {
    /// The name of the directory.
    pub name: String,
    /// The slug of the category's page: the name.
    pub url: String,
    /// The path of the category's index document.
    pub index_path: String,
    /// The items, those with a day first, latest day first.
    pub items: Vec<ContentItem>,
    /// What the index document says the category is about.
    pub description: Option<String>,
}

/// A `Category` with its texts as sequences of characters.
pub struct CategoryModel {
    pub name: Seq<char>,
    pub url: Seq<char>,
    pub index_path: Seq<char>,
    pub items: Seq<ItemModel>,
    pub description: Option<Seq<char>>,
}

impl View for Category {
    type V = CategoryModel;

    open spec fn view(&self) -> CategoryModel {
        CategoryModel {
            name: self.name@,
            url: self.url@,
            index_path: self.index_path@,
            items: items_view(self.items@),
            description: opt_view(self.description),
        }
    }
}

impl Clone for Category {
    fn clone(&self) -> (out: Self)
        ensures
            out@ == self@,
    {
        Category {
            name: self.name.clone(),
            url: self.url.clone(),
            index_path: self.index_path.clone(),
            items: copy_items(&self.items),
            description: copy_opt(&self.description),
        }
    }
}

impl Rank for CategoryModel {
    /// Categories stand in the order of their names.
    open spec fn precedes(&self, other: &Self) -> bool {
        text_le(self.name, other.name)
    }

    proof fn lemma_total(a: &Self, b: &Self) {
        crate::order::lemma_text_le_total(a.name, b.name);
    }

    proof fn lemma_transitive(a: &Self, b: &Self, c: &Self) {
        crate::order::lemma_text_le_transitive(a.name, b.name, c.name);
    }
}

impl Sortable for Category {
    type Model = CategoryModel;

    open spec fn model(&self) -> CategoryModel {
        self@
    }

    fn goes_before(&self, other: &Self) -> (r: bool) {
        crate::order::str_le(self.name.as_str(), other.name.as_str())
    }
}

/// The models of a list of categories.
pub open spec fn categories_view(list: Seq<Category>) -> Seq<CategoryModel> {
    list.map_values(|c: Category| c@)
}

/// All that a scan found.
#[derive(Debug)]
pub struct SiteContent {
    /// The categories, in the order of their names.
    pub categories: Vec<Category>,
}

/// A `SiteContent` with its texts as sequences of characters.
pub struct SiteModel {
    pub categories: Seq<CategoryModel>,
}

impl View for SiteContent {
    type V = SiteModel;

    open spec fn view(&self) -> SiteModel {
        SiteModel { categories: categories_view(self.categories@) }
    }
}

impl Clone for SiteContent {
    fn clone(&self) -> (out: Self)
        ensures
            out@ == self@,
    {
        let mut out: Vec<Category> = Vec::new();
        let mut i: usize = 0;
        while i < self.categories.len()
            invariant
                i <= self.categories.len(),
                out.len() == i,
                forall|j: int| 0 <= j < i ==> out@[j]@ == self.categories@[j]@,
            decreases self.categories.len() - i,
        {
            out.push(self.categories[i].clone());
            i += 1;
        }
        assert(categories_view(out@) =~= categories_view(self.categories@));
        SiteContent { categories: out }
    }
}

/// The items of all categories, in the order of the categories.
pub open spec fn all_items_of(categories: Seq<CategoryModel>) -> Seq<ItemModel>
    decreases categories.len(),
{
    if categories.len() == 0 {
        Seq::empty()
    } else {
        all_items_of(categories.drop_last()) + categories.last().items
    }
}

/// The models of a list of borrowed items.
pub open spec fn item_refs_view(list: Seq<&ContentItem>) -> Seq<ItemModel> {
    list.map_values(|i: &ContentItem| i@)
}

impl SiteContent {
    /// The items of all categories, in the order of the categories and,
    /// within each, of its items.
    pub fn all_items(&self) -> (out: Vec<&ContentItem>)
        ensures
            item_refs_view(out@) == all_items_of(self@.categories),
    {
        let ghost cats = self@.categories;
        let mut out: Vec<&ContentItem> = Vec::new();
        let mut c: usize = 0;
        assert(cats.take(0) =~= Seq::empty());
        assert(item_refs_view(out@) =~= Seq::empty());
        while c < self.categories.len()
            invariant
                c <= self.categories.len(),
                cats == self@.categories,
                item_refs_view(out@) == all_items_of(cats.take(c as int)),
            decreases self.categories.len() - c,
        {
            let category = &self.categories[c];
            let ghost before = item_refs_view(out@);
            let mut i: usize = 0;
            assert(category@.items.take(0) =~= Seq::empty());
            assert(before + Seq::<ItemModel>::empty() =~= before);
            while i < category.items.len()
                invariant
                    i <= category.items.len(),
                    item_refs_view(out@) == before + category@.items.take(i as int),
                decreases category.items.len() - i,
            {
                let ghost held = item_refs_view(out@);
                out.push(&category.items[i]);
                assert(category@.items.take(i + 1) =~= category@.items.take(i as int).push(
                    category.items@[i as int]@,
                ));
                assert(item_refs_view(out@) =~= held.push(category.items@[i as int]@));
                assert(held.push(category.items@[i as int]@) =~= before + category@.items.take(
                    i + 1,
                ));
                i += 1;
            }
            assert(category@.items.take(category.items.len() as int) =~= category@.items);
            assert(cats.take(c + 1).drop_last() =~= cats.take(c as int));
            assert(cats.take(c + 1).last() == category@);
            c += 1;
        }
        assert(cats.take(self.categories.len() as int) =~= cats);
        out
    }
}

} // verus!
