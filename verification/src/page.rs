//! The rows of the store: pages, stored attachments, and entries of the
//! site's metadata.

use crate::order::{text_le, Rank, Sortable};
use crate::table::{Keyed, Row};
use crate::text::{copy_bytes, copy_opt, copy_str, opt_view, str_eq};
use vstd::prelude::*;

verus! {

/// What a page shows.
#[derive(Clone, Copy, Debug, PartialEq, Eq, Structural)]
pub enum PageType {
    /// The front page of the site.
    Index,
    /// The page of a category.
    Category,
    /// The page of an item.
    Item,
}

/// The name of a page type in stored rows.
pub open spec fn page_type_name(t: PageType) -> Seq<char> {
    match t {
        PageType::Index => "index"@,
        PageType::Category => "category"@,
        PageType::Item => "item"@,
    }
}

/// The page type that a name in a stored row stands for; a name that is
/// neither `index` nor `category` stands for an item.
pub open spec fn page_type_named(name: Seq<char>) -> PageType {
    if name == "index"@ {
        PageType::Index
    } else if name == "category"@ {
        PageType::Category
    } else {
        PageType::Item
    }
}

impl PageType {
    /// The name of this page type in stored rows.
    pub fn as_str(&self) -> (name: &'static str)
        ensures
            name@ == page_type_name(*self),
    {
        match self {
            PageType::Index => "index",
            PageType::Category => "category",
            PageType::Item => "item",
        }
    }

    /// The page type that `name` stands for.
    pub fn from_name(name: &str) -> (t: PageType)
        ensures
            t == page_type_named(name@),
    {
        if str_eq(name, "index") {
            PageType::Index
        } else if str_eq(name, "category") {
            PageType::Category
        } else {
            PageType::Item
        }
    }
}

/// A page of the site, ready to be served.
#[derive(Debug)]
pub struct Page {
    pub id: String,
    /// The slug under which the page is kept and served: the key of the row.
    pub slug: String,
    pub page_type: PageType,
    pub title: String,
    /// The page as HTML.
    pub content: String,
    /// The category of an item's page.
    pub category: Option<String>,
    /// When the row was written, in the form of RFC 3339.
    pub updated_at: String,
}

/// A `Page` with its texts as sequences of characters.
pub struct PageModel {
    pub id: Seq<char>,
    pub slug: Seq<char>,
    pub page_type: PageType,
    pub title: Seq<char>,
    pub content: Seq<char>,
    pub category: Option<Seq<char>>,
    pub updated_at: Seq<char>,
}

impl View for Page {
    type V = PageModel;

    open spec fn view(&self) -> PageModel {
        PageModel {
            id: self.id@,
            slug: self.slug@,
            page_type: self.page_type,
            title: self.title@,
            content: self.content@,
            category: opt_view(self.category),
            updated_at: self.updated_at@,
        }
    }
}

impl Clone for Page {
    fn clone(&self) -> (out: Self)
        ensures
            out@ == self@,
    {
        Page {
            id: self.id.clone(),
            slug: self.slug.clone(),
            page_type: self.page_type,
            title: self.title.clone(),
            content: self.content.clone(),
            category: copy_opt(&self.category),
            updated_at: self.updated_at.clone(),
        }
    }
}

impl Keyed for PageModel {
    open spec fn key(&self) -> Seq<char> {
        self.slug
    }
}

impl Row for Page {
    type Model = PageModel;

    open spec fn model(&self) -> PageModel {
        self@
    }

    fn key_text(&self) -> (k: &str) {
        self.slug.as_str()
    }
}

/// The models of a list of pages.
pub open spec fn pages_view(pages: Seq<Page>) -> Seq<PageModel> {
    pages.map_values(|p: Page| p@)
}

/// `page` as it is written at the time `now`.
pub open spec fn stamped_page(page: PageModel, now: Seq<char>) -> PageModel {
    PageModel { updated_at: now, ..page }
}

/// Each page of `pages` as it is written at the time `now`.
pub open spec fn stamped_pages(pages: Seq<PageModel>, now: Seq<char>) -> Seq<PageModel> {
    pages.map_values(|p: PageModel| stamped_page(p, now))
}

impl Page {
    /// A copy of this page as it is written at the time `now`.
    pub fn stamped(&self, now: &str) -> (out: Page)
        ensures
            out@ == stamped_page(self@, now@),
    {
        Page {
            id: self.id.clone(),
            slug: self.slug.clone(),
            page_type: self.page_type,
            title: self.title.clone(),
            content: self.content.clone(),
            category: copy_opt(&self.category),
            updated_at: copy_str(now),
        }
    }
}

/// A file of an item as the store keeps it.
#[derive(Debug)]
pub struct StoredAttachment {
    pub id: String,
    /// The slug of the item that the file belongs to.
    pub slug: String,
    /// The name under which the file is kept and served: the key of the row.
    pub filename: String,
    /// The name of the file as its author wrote it.
    pub original_name: String,
    pub mime_type: String,
    pub file_data: Vec<u8>,
    pub file_size: usize,
    /// When the row was written, in the form of RFC 3339.
    pub updated_at: String,
}

/// A `StoredAttachment` with its texts as sequences of characters.
pub struct StoredAttachmentModel {
    pub id: Seq<char>,
    pub slug: Seq<char>,
    pub filename: Seq<char>,
    pub original_name: Seq<char>,
    pub mime_type: Seq<char>,
    pub file_data: Seq<u8>,
    pub file_size: usize,
    pub updated_at: Seq<char>,
}

impl View for StoredAttachment {
    type V = StoredAttachmentModel;

    open spec fn view(&self) -> StoredAttachmentModel {
        StoredAttachmentModel {
            id: self.id@,
            slug: self.slug@,
            filename: self.filename@,
            original_name: self.original_name@,
            mime_type: self.mime_type@,
            file_data: self.file_data@,
            file_size: self.file_size,
            updated_at: self.updated_at@,
        }
    }
}

impl Clone for StoredAttachment {
    fn clone(&self) -> (out: Self)
        ensures
            out@ == self@,
    {
        StoredAttachment {
            id: self.id.clone(),
            slug: self.slug.clone(),
            filename: self.filename.clone(),
            original_name: self.original_name.clone(),
            mime_type: self.mime_type.clone(),
            file_data: copy_bytes(&self.file_data),
            file_size: self.file_size,
            updated_at: self.updated_at.clone(),
        }
    }
}

impl Keyed for StoredAttachmentModel {
    open spec fn key(&self) -> Seq<char> {
        self.filename
    }
}

impl Row for StoredAttachment {
    type Model = StoredAttachmentModel;

    open spec fn model(&self) -> StoredAttachmentModel {
        self@
    }

    fn key_text(&self) -> (k: &str) {
        self.filename.as_str()
    }
}

impl Rank for StoredAttachmentModel {
    /// Stored attachments stand in the order of their items' slugs, those of
    /// one item in the order of their names.
    open spec fn precedes(&self, other: &Self) -> bool {
        if self.slug == other.slug {
            text_le(self.filename, other.filename)
        } else {
            text_le(self.slug, other.slug)
        }
    }

    proof fn lemma_total(a: &Self, b: &Self) {
        crate::order::lemma_text_le_total(a.filename, b.filename);
        crate::order::lemma_text_le_total(a.slug, b.slug);
    }

    proof fn lemma_transitive(a: &Self, b: &Self, c: &Self) {
        if a.slug == b.slug && b.slug == c.slug {
            crate::order::lemma_text_le_transitive(a.filename, b.filename, c.filename);
        } else if a.slug == b.slug || b.slug == c.slug {
        } else {
            crate::order::lemma_text_le_transitive(a.slug, b.slug, c.slug);
            if a.slug == c.slug {
                crate::order::lemma_text_le_antisymmetric(a.slug, b.slug);
            }
        }
    }
}

impl Sortable for StoredAttachment {
    type Model = StoredAttachmentModel;

    open spec fn model(&self) -> StoredAttachmentModel {
        self@
    }

    fn goes_before(&self, other: &Self) -> (r: bool) {
        if str_eq(self.slug.as_str(), other.slug.as_str()) {
            crate::order::str_le(self.filename.as_str(), other.filename.as_str())
        } else {
            crate::order::str_le(self.slug.as_str(), other.slug.as_str())
        }
    }
}

/// The models of a list of stored attachments.
pub open spec fn stored_view(list: Seq<StoredAttachment>) -> Seq<StoredAttachmentModel> {
    list.map_values(|a: StoredAttachment| a@)
}

/// `attachment` as it is written at the time `now`.
pub open spec fn stamped_attachment(
    attachment: StoredAttachmentModel,
    now: Seq<char>,
) -> StoredAttachmentModel {
    StoredAttachmentModel { updated_at: now, ..attachment }
}

/// Each attachment of `list` as it is written at the time `now`.
pub open spec fn stamped_attachments(list: Seq<StoredAttachmentModel>, now: Seq<char>) -> Seq<
    StoredAttachmentModel,
> {
    list.map_values(|a: StoredAttachmentModel| stamped_attachment(a, now))
}

impl StoredAttachment {
    /// A copy of this attachment as it is written at the time `now`.
    pub fn stamped(&self, now: &str) -> (out: StoredAttachment)
        ensures
            out@ == stamped_attachment(self@, now@),
    {
        StoredAttachment {
            id: self.id.clone(),
            slug: self.slug.clone(),
            filename: self.filename.clone(),
            original_name: self.original_name.clone(),
            mime_type: self.mime_type.clone(),
            file_data: copy_bytes(&self.file_data),
            file_size: self.file_size,
            updated_at: copy_str(now),
        }
    }
}

/// One entry of the site's metadata.
#[derive(Debug)]
pub struct MetadataEntry {
    pub key: String,
    pub value: String,
}

/// A `MetadataEntry` with its texts as sequences of characters.
pub struct MetadataModel {
    pub key: Seq<char>,
    pub value: Seq<char>,
}

impl View for MetadataEntry {
    type V = MetadataModel;

    open spec fn view(&self) -> MetadataModel {
        MetadataModel { key: self.key@, value: self.value@ }
    }
}

impl Keyed for MetadataModel {
    open spec fn key(&self) -> Seq<char> {
        self.key
    }
}

impl Row for MetadataEntry {
    type Model = MetadataModel;

    open spec fn model(&self) -> MetadataModel {
        self@
    }

    fn key_text(&self) -> (k: &str) {
        self.key.as_str()
    }
}

/// Counts of what the store holds.
#[derive(Debug)]
pub struct SiteStats {
    pub total_categories: usize,
    pub total_items: usize,
    pub total_attachments: usize,
    /// When the site was last compiled; empty before the first compile.
    pub last_compiled: Option<String>,
}

} // verus!
