//! The scanner: from what was read off the content directory to the
//! content of the site.

use crate::attachments::{attachments_of, distinct_names, scan_attachments};
use crate::content::{
    attachments_view, categories_view, items_view, Attachment, AttachmentModel, Category,
    CategoryModel, ContentItem, ItemModel, SiteContent, SiteModel,
};
use crate::error::{CompileError, CompileErrorModel, ParseError, ParseErrorModel};
use crate::markdown::{day_of, parse_markdown, parse_of, title_of, ParsedMarkdown, ParsedModel};
use crate::order::{
    distinct_keys, in_rank_order, lemma_ranked_in_order, lemma_ranked_keeps_distinct,
    lemma_ranked_same_elements, models, ranked, sort_ranked, text_le, text_lt, Rank,
};
use crate::source::{
    after, extension, extension_of, file_stem, find_entry, find_node, gather, gather_listing,
    hidden, is_hidden, lemma_gather_done, lemma_gather_next, lemma_gather_start, node_name,
    stem_of, Listing, Node,
};
use crate::text::{
    chars_of, copy_list, copy_opt, copy_str, join2, join3, list_view, opt_view, push_str, str_eq,
    string_of,
};
use vstd::prelude::*;
use vstd::string::StringSliceAdditionalSpecFns;

verus! {

/// `std::str::from_utf8` reads bytes as a string without copying them. As its
/// documentation says, it succeeds on the byte sequences that are UTF-8 and
/// on no others, and the string it gives has those bytes.
#[verifier::external_body]
fn utf8_text(bytes: &[u8]) -> (r: Option<&str>)
    ensures
        r is Some <==> vstd::utf8::valid_utf8(bytes@),
        r matches Some(s) ==> s.spec_bytes() == bytes@,
{
    std::str::from_utf8(bytes).ok()
}

/// The text that bytes spell in UTF-8, if they are UTF-8.
pub open spec fn text_of_bytes(bytes: Seq<u8>) -> Option<Seq<char>> {
    if vstd::utf8::valid_utf8(bytes) {
        Some(vstd::utf8::decode_utf8(bytes))
    } else {
        None
    }
}

/// The text that `bytes` spell in UTF-8, if they are UTF-8.
pub fn decode_text(bytes: &Vec<u8>) -> (r: Option<String>)
    ensures
        opt_view(r) == text_of_bytes(bytes@),
{
    match utf8_text(bytes.as_slice()) {
        None => None,
        Some(s) => {
            proof {
                vstd::utf8::encode_utf8_decode_utf8(s@);
            }
            Some(copy_str(s))
        },
    }
}

/// What reading and parsing make of a document.
pub open spec fn document_of(content: Result<Vec<u8>, String>) -> Result<
    ParsedModel,
    CompileErrorModel,
> {
    match content {
        Err(m) => Err(CompileErrorModel::Io(m@)),
        Ok(bytes) => match text_of_bytes(bytes@) {
            None => Err(CompileErrorModel::Parse(ParseErrorModel::Encoding)),
            Some(text) => match parse_of(text) {
                Err(e) => Err(CompileErrorModel::Parse(e)),
                Ok(doc) => Ok(doc),
            },
        },
    }
}

/// The view of a parsed document, or of the error.
pub open spec fn document_outcome(r: Result<ParsedMarkdown, CompileError>) -> Result<
    ParsedModel,
    CompileErrorModel,
> {
    match r {
        Ok(doc) => Ok(doc@),
        Err(e) => Err(e@),
    }
}

/// Parses a document from what reading its file gave.
pub fn read_document(content: &Result<Vec<u8>, String>) -> (r: Result<
    ParsedMarkdown,
    CompileError,
>)
    ensures
        document_outcome(r) == document_of(*content),
{
    match content {
        Err(m) => Err(CompileError::Io(m.clone())),
        Ok(bytes) => match decode_text(bytes) {
            None => Err(CompileError::Parse(ParseError::Encoding)),
            Some(text) => match parse_markdown(text.as_str()) {
                Err(e) => Err(CompileError::Parse(e)),
                Ok(doc) => Ok(doc),
            },
        },
    }
}

/// The path of a document: content directory, category, item directory and
/// file name, with slashes between.
pub open spec fn document_path(
    content_dir: Seq<char>,
    category: Seq<char>,
    dir_name: Seq<char>,
    file_name: Seq<char>,
) -> Seq<char> {
    content_dir + seq!['/'] + category + seq!['/'] + dir_name + seq!['/'] + file_name
}

/// The item that a parsed document becomes, with the attachments of its
/// directory.
pub open spec fn item_of(
    content_dir: Seq<char>,
    category: Seq<char>,
    dir_name: Seq<char>,
    file_name: Seq<char>,
    doc: ParsedModel,
    attachments: Seq<AttachmentModel>,
) -> ItemModel {
    ItemModel {
        category: category,
        item_name: stem_of(file_name),
        dir_name: dir_name,
        url: category + seq!['-'] + stem_of(file_name),
        file_path: document_path(content_dir, category, dir_name, file_name),
        title: title_of(doc),
        date: day_of(doc),
        author: doc.frontmatter.author,
        description: doc.frontmatter.description,
        html_content: doc.html_content,
        attachments: attachments,
        tags: match doc.frontmatter.tags {
            Some(t) => t,
            None => Seq::empty(),
        },
    }
}

/// The attachments of an item directory: those of the first entry named
/// `attachment`, where that is a directory; none otherwise.
pub open spec fn item_attachments(dir_name: Seq<char>, listing: Listing) -> Result<
    Seq<AttachmentModel>,
    CompileErrorModel,
> {
    match find_node(listing.entries@, "attachment"@) {
        Some(Node::Dir { name, listing: inner }) => attachments_of(dir_name, inner),
        _ => Ok(Seq::empty()),
    }
}

/// What the scan makes of a document of an item directory. The document is
/// read and parsed first, the attachments are scanned second, and the first
/// failure is the outcome.
pub open spec fn scanned_item(
    content_dir: Seq<char>,
    category: Seq<char>,
    dir_name: Seq<char>,
    listing: Listing,
    file_name: Seq<char>,
    content: Result<Vec<u8>, String>,
) -> Result<ItemModel, CompileErrorModel> {
    match document_of(content) {
        Err(e) => Err(e),
        Ok(doc) => match item_attachments(dir_name, listing) {
            Err(e) => Err(e),
            Ok(attachments) => Ok(
                item_of(content_dir, category, dir_name, file_name, doc, attachments),
            ),
        },
    }
}

/// The error for an entry that is needed and whose name is not Unicode.
pub open spec fn nameless_error(message: Seq<char>) -> CompileErrorModel {
    CompileErrorModel::Io(message)
}

/// The error for a directory that stands where a document is expected.
pub open spec fn directory_error(name: Seq<char>) -> CompileErrorModel {
    CompileErrorModel::Io("is a directory: "@ + name)
}

/// What the scan makes of one entry of an item directory: an item of every
/// entry with the extension `md`, nothing of the others. An entry with that
/// extension and a name that is not Unicode ends the scan.
pub open spec fn document_items(
    content_dir: Seq<char>,
    category: Seq<char>,
    dir_name: Seq<char>,
    listing: Listing,
    n: Node,
) -> Result<Seq<ItemModel>, CompileErrorModel> {
    match n {
        Node::Nameless { directory, markdown } => if markdown {
            Err(nameless_error("Invalid item name"@))
        } else {
            Ok(Seq::empty())
        },
        Node::Dir { name, listing: inner } => if extension_of(name@) != Some("md"@) {
            Ok(Seq::empty())
        } else {
            Err(directory_error(name@))
        },
        Node::File { name, content } => if extension_of(name@) != Some("md"@) {
            Ok(Seq::empty())
        } else {
            match scanned_item(content_dir, category, dir_name, listing, name@, content) {
                Err(e) => Err(e),
                Ok(item) => Ok(seq![item]),
            }
        },
    }
}

/// `document_items` as a step of a walk.
pub open spec fn document_step(
    content_dir: Seq<char>,
    category: Seq<char>,
    dir_name: Seq<char>,
    listing: Listing,
) -> spec_fn(Node) -> Result<Seq<ItemModel>, CompileErrorModel> {
    |n: Node| document_items(content_dir, category, dir_name, listing, n)
}

/// What the scan makes of one entry of a category directory: the items of
/// every directory whose name neither begins with a dot nor is `attachment`.
/// A directory whose name is not Unicode ends the scan; files are passed
/// over, whatever their names.
pub open spec fn directory_items(content_dir: Seq<char>, category: Seq<char>, n: Node) -> Result<
    Seq<ItemModel>,
    CompileErrorModel,
> {
    match n {
        Node::Nameless { directory, markdown } => if directory {
            Err(nameless_error("Invalid item name"@))
        } else {
            Ok(Seq::empty())
        },
        Node::File { name, content } => Ok(Seq::empty()),
        Node::Dir { name, listing } => if is_hidden(name@) || name@ == "attachment"@ {
            Ok(Seq::empty())
        } else {
            gather_listing(listing, document_step(content_dir, category, name@, listing))
        },
    }
}

/// `directory_items` as a step of a walk.
pub open spec fn directory_step(content_dir: Seq<char>, category: Seq<char>) -> spec_fn(
    Node,
) -> Result<Seq<ItemModel>, CompileErrorModel> {
    |n: Node| directory_items(content_dir, category, n)
}

/// What the index document of a category says the category is about. The
/// index document is the first entry named `index.md`. One that cannot be
/// read is an error; one that cannot be parsed says nothing.
pub open spec fn index_description(listing: Listing) -> Result<
    Option<Seq<char>>,
    CompileErrorModel,
> {
    match find_node(listing.entries@, "index.md"@) {
        None => Ok(None),
        Some(Node::Nameless { directory, markdown }) => Ok(None),
        Some(Node::Dir { name, listing: inner }) => Err(directory_error(name@)),
        Some(Node::File { name, content }) => match content {
            Err(m) => Err(CompileErrorModel::Io(m@)),
            Ok(bytes) => match text_of_bytes(bytes@) {
                None => Err(CompileErrorModel::Parse(ParseErrorModel::Encoding)),
                Some(text) => match parse_of(text) {
                    Err(e) => Ok(None),
                    Ok(doc) => Ok(doc.frontmatter.description),
                },
            },
        },
    }
}

/// The category that a directory becomes, or `None` where it has neither an
/// index document nor an item.
pub open spec fn category_of(content_dir: Seq<char>, name: Seq<char>, listing: Listing) -> Result<
    Option<CategoryModel>,
    CompileErrorModel,
> {
    match index_description(listing) {
        Err(e) => Err(e),
        Ok(description) => match gather_listing(listing, directory_step(content_dir, name)) {
            Err(e) => Err(e),
            Ok(items) => if items.len() == 0 && find_node(listing.entries@, "index.md"@) is None {
                Ok(None)
            } else {
                Ok(
                    Some(
                        CategoryModel {
                            name: name,
                            url: name,
                            index_path: content_dir + seq!['/'] + name + "/index.md"@,
                            items: ranked(items),
                            description: description,
                        },
                    ),
                )
            },
        },
    }
}

/// What the scan makes of one entry of the content directory: a category of
/// every directory whose name does not begin with a dot, unless it is empty.
/// A directory whose name is not Unicode ends the scan; files are passed
/// over, whatever their names.
pub open spec fn directory_categories(content_dir: Seq<char>, n: Node) -> Result<
    Seq<CategoryModel>,
    CompileErrorModel,
> {
    match n {
        Node::Nameless { directory, markdown } => if directory {
            Err(nameless_error("Invalid category name"@))
        } else {
            Ok(Seq::empty())
        },
        Node::File { name, content } => Ok(Seq::empty()),
        Node::Dir { name, listing } => if is_hidden(name@) {
            Ok(Seq::empty())
        } else {
            match category_of(content_dir, name@, listing) {
                Err(e) => Err(e),
                Ok(None) => Ok(Seq::empty()),
                Ok(Some(c)) => Ok(seq![c]),
            }
        },
    }
}

/// `directory_categories` as a step of a walk.
pub open spec fn category_step(content_dir: Seq<char>) -> spec_fn(Node) -> Result<
    Seq<CategoryModel>,
    CompileErrorModel,
> {
    |n: Node| directory_categories(content_dir, n)
}

/// The content of the site whose content directory gave the listing `root`:
/// its categories in the order of their names, or the first failure of the
/// scan.
pub open spec fn site_of(content_dir: Seq<char>, root: Listing) -> Result<
    SiteModel,
    CompileErrorModel,
> {
    match gather_listing(root, category_step(content_dir)) {
        Err(e) => Err(e),
        Ok(categories) => Ok(SiteModel { categories: ranked(categories) }),
    }
}

/// The view of an item, or of the error.
pub open spec fn item_outcome(r: Result<ContentItem, CompileError>) -> Result<
    ItemModel,
    CompileErrorModel,
> {
    match r {
        Ok(item) => Ok(item@),
        Err(e) => Err(e@),
    }
}

/// The view of a category, or of the error.
pub open spec fn category_outcome(r: Result<Option<Category>, CompileError>) -> Result<
    Option<CategoryModel>,
    CompileErrorModel,
> {
    match r {
        Ok(Some(c)) => Ok(Some(c@)),
        Ok(None) => Ok(None),
        Err(e) => Err(e@),
    }
}

/// The view of the content of a site, or of the error.
pub open spec fn site_outcome(r: Result<SiteContent, CompileError>) -> Result<
    SiteModel,
    CompileErrorModel,
> {
    match r {
        Ok(site) => Ok(site@),
        Err(e) => Err(e@),
    }
}

/// Every category holds its items in their order.
pub open spec fn items_in_order(categories: Seq<CategoryModel>) -> bool {
    forall|k: int| 0 <= k < categories.len() ==> in_rank_order((#[trigger] categories[k]).items)
}

/// Every item holds attachments with distinct new names.
pub open spec fn names_distinct(items: Seq<ItemModel>) -> bool {
    forall|k: int| 0 <= k < items.len() ==> distinct_names((#[trigger] items[k]).attachments)
}

/// Every item of every category holds attachments with distinct new names.
pub open spec fn all_names_distinct(categories: Seq<CategoryModel>) -> bool {
    forall|k: int| 0 <= k < categories.len() ==> names_distinct((#[trigger] categories[k]).items)
}

/// Scans content that was read off a content directory.
#[derive(Debug)]
pub struct Scanner {
    /// The path of the content directory.
    pub content_dir: String,
}

impl Scanner {
    /// A scanner for the content directory at `content_dir`.
    pub fn new(content_dir: String) -> (s: Self)
        ensures
            s.content_dir@ == content_dir@,
    {
        Scanner { content_dir }
    }

    /// Scans what was read off the content directory and builds the content
    /// of the site. Categories come out in the order of their names, items
    /// with a day before those without, latest day first, and every
    /// attachment under a name of its own within its item. The first file
    /// that could not be read or parsed, or the first listing that ended
    /// early, is the error.
    pub fn scan(&self, root: &Listing) -> (r: Result<SiteContent, CompileError>)
        ensures
            site_outcome(r) == site_of(self.content_dir@, *root),
            r matches Ok(site) ==> in_rank_order(site@.categories) && items_in_order(
                site@.categories,
            ) && all_names_distinct(site@.categories),
    {
        let ghost all = root.entries@;
        let ghost step = category_step(self.content_dir@);
        let mut categories: Vec<Category> = Vec::new();
        let mut i: usize = 0;
        proof {
            lemma_gather_start(all, step);
            assert(categories_view(categories@) =~= Seq::<CategoryModel>::empty());
        }
        while i < root.entries.len()
            invariant
                i <= root.entries.len(),
                all == root.entries@,
                step == category_step(self.content_dir@),
                items_in_order(categories_view(categories@)),
                all_names_distinct(categories_view(categories@)),
                gather(all, step) == after(
                    categories_view(categories@),
                    gather(all.skip(i as int), step),
                ),
            decreases root.entries.len() - i,
        {
            let ghost acc = categories_view(categories@);
            proof {
                lemma_gather_next(all, step, i as int, acc);
                assert(acc + Seq::<CategoryModel>::empty() =~= acc);
            }
            match &root.entries[i] {
                Node::Nameless { directory, markdown } => {
                    if *directory {
                        return Err(CompileError::Io(copy_str("Invalid category name")));
                    }
                },
                Node::File { name, content } => {},
                Node::Dir { name, listing } => {
                    if !hidden(name.as_str()) {
                        match self.scan_category(name.as_str(), listing) {
                            Err(e) => {
                                return Err(e);
                            },
                            Ok(None) => {},
                            Ok(Some(c)) => {
                                categories.push(c);
                                assert(categories_view(categories@) =~= acc + seq![c@]);
                            },
                        }
                    }
                },
            }
            i += 1;
        }
        proof {
            lemma_gather_done(all, step, categories_view(categories@));
        }
        match &root.failure {
            Some(m) => Err(CompileError::Io(m.clone())),
            None => {
                let ghost unsorted = categories_view(categories@);
                let sorted = sort_ranked(categories);
                proof {
                    assert(models(categories@) =~= unsorted);
                    assert(models(sorted@) =~= categories_view(sorted@));
                    lemma_ranked_in_order(unsorted);
                    lemma_ranked_same_elements(unsorted);
                    let out = ranked(unsorted);
                    assert forall|k: int| 0 <= k < out.len() implies in_rank_order(
                        (#[trigger] out[k]).items,
                    ) && names_distinct(out[k].items) by {
                        assert(out.contains(out[k]));
                        assert(unsorted.contains(out[k]));
                        let m = choose|m: int| 0 <= m < unsorted.len() && unsorted[m] == out[k];
                        assert(in_rank_order(unsorted[m].items));
                        assert(names_distinct(unsorted[m].items));
                    }
                }
                Ok(SiteContent { categories: sorted })
            },
        }
    }

    /// Scans one category directory.
    pub fn scan_category(&self, category_name: &str, listing: &Listing) -> (r: Result<
        Option<Category>,
        CompileError,
    >)
        ensures
            category_outcome(r) == category_of(self.content_dir@, category_name@, *listing),
            r matches Ok(Some(c)) ==> in_rank_order(c@.items) && names_distinct(c@.items),
    {
        let index = find_entry(&listing.entries, "index.md");
        let description: Option<String> = match index {
            None => None,
            Some(Node::Nameless { directory, markdown }) => None,
            Some(Node::Dir { name, listing: inner }) => {
                return Err(CompileError::Io(join2("is a directory: ", name.as_str())));
            },
            Some(Node::File { name, content }) => match content {
                Err(m) => {
                    return Err(CompileError::Io(m.clone()));
                },
                Ok(bytes) => match decode_text(bytes) {
                    None => {
                        return Err(CompileError::Parse(ParseError::Encoding));
                    },
                    Some(text) => match parse_markdown(text.as_str()) {
                        Err(e) => None,
                        Ok(doc) => doc.frontmatter.description,
                    },
                },
            },
        };
        let ghost all = listing.entries@;
        let ghost step = directory_step(self.content_dir@, category_name@);
        let mut items: Vec<ContentItem> = Vec::new();
        let mut i: usize = 0;
        proof {
            lemma_gather_start(all, step);
            assert(items_view(items@) =~= Seq::<ItemModel>::empty());
        }
        while i < listing.entries.len()
            invariant
                i <= listing.entries.len(),
                all == listing.entries@,
                step == directory_step(self.content_dir@, category_name@),
                index_description(*listing) == Ok::<Option<Seq<char>>, CompileErrorModel>(
                    opt_view(description),
                ),
                names_distinct(items_view(items@)),
                gather(all, step) == after(items_view(items@), gather(all.skip(i as int), step)),
            decreases listing.entries.len() - i,
        {
            let ghost acc = items_view(items@);
            proof {
                lemma_gather_next(all, step, i as int, acc);
                assert(acc + Seq::<ItemModel>::empty() =~= acc);
            }
            match &listing.entries[i] {
                Node::Nameless { directory, markdown } => {
                    if *directory {
                        return Err(CompileError::Io(copy_str("Invalid item name")));
                    }
                },
                Node::File { name, content } => {},
                Node::Dir { name, listing: inner } => {
                    if !hidden(name.as_str()) && !str_eq(name.as_str(), "attachment") {
                        match self.scan_directory(category_name, name.as_str(), inner) {
                            Err(e) => {
                                return Err(e);
                            },
                            Ok(found) => {
                                let ghost more = items_view(found@);
                                let mut found = found;
                                items.append(&mut found);
                                assert(items_view(items@) =~= acc + more);
                            },
                        }
                    }
                },
            }
            i += 1;
        }
        proof {
            lemma_gather_done(all, step, items_view(items@));
        }
        if let Some(m) = &listing.failure {
            return Err(CompileError::Io(m.clone()));
        }
        if items.len() == 0 && index.is_none() {
            return Ok(None);
        }
        let ghost unsorted = items_view(items@);
        let sorted = sort_ranked(items);
        proof {
            assert(models(items@) =~= unsorted);
            assert(models(sorted@) =~= items_view(sorted@));
            lemma_ranked_in_order(unsorted);
            lemma_ranked_same_elements(unsorted);
            let out = ranked(unsorted);
            assert forall|k: int| 0 <= k < out.len() implies distinct_names(
                (#[trigger] out[k]).attachments,
            ) by {
                assert(out.contains(out[k]));
                assert(unsorted.contains(out[k]));
                let m = choose|m: int| 0 <= m < unsorted.len() && unsorted[m] == out[k];
                assert(distinct_names(unsorted[m].attachments));
            }
        }
        let mut index_path = chars_of(self.content_dir.as_str());
        index_path.push('/');
        push_str(&mut index_path, category_name);
        push_str(&mut index_path, "/index.md");
        assert(index_path@ =~= self.content_dir@ + seq!['/'] + category_name@ + "/index.md"@);
        Ok(
            Some(
                Category {
                    name: copy_str(category_name),
                    url: copy_str(category_name),
                    index_path: string_of(&index_path),
                    items: sorted,
                    description,
                },
            ),
        )
    }

    /// Scans one item directory: every entry with the extension `md` gives
    /// an item.
    pub fn scan_directory(&self, category_name: &str, dir_name: &str, listing: &Listing) -> (r:
        Result<Vec<ContentItem>, CompileError>)
        ensures
            match r {
                Ok(items) => gather_listing(
                    *listing,
                    document_step(self.content_dir@, category_name@, dir_name@, *listing),
                ) == Ok::<Seq<ItemModel>, CompileErrorModel>(items_view(items@))
                    && names_distinct(items_view(items@)),
                Err(e) => gather_listing(
                    *listing,
                    document_step(self.content_dir@, category_name@, dir_name@, *listing),
                ) == Err::<Seq<ItemModel>, CompileErrorModel>(e@),
            },
    {
        let ghost all = listing.entries@;
        let ghost step = document_step(self.content_dir@, category_name@, dir_name@, *listing);
        let mut items: Vec<ContentItem> = Vec::new();
        let mut i: usize = 0;
        proof {
            lemma_gather_start(all, step);
            assert(items_view(items@) =~= Seq::<ItemModel>::empty());
        }
        while i < listing.entries.len()
            invariant
                i <= listing.entries.len(),
                all == listing.entries@,
                step == document_step(self.content_dir@, category_name@, dir_name@, *listing),
                names_distinct(items_view(items@)),
                gather(all, step) == after(items_view(items@), gather(all.skip(i as int), step)),
            decreases listing.entries.len() - i,
        {
            let ghost acc = items_view(items@);
            proof {
                lemma_gather_next(all, step, i as int, acc);
                assert(acc + Seq::<ItemModel>::empty() =~= acc);
            }
            let node = &listing.entries[i];
            let is_document: bool = match node.name() {
                None => false,
                Some(name) => match extension(name.as_str()) {
                    Some(e) => str_eq(e.as_str(), "md"),
                    None => false,
                },
            };
            if let Node::Nameless { directory, markdown } = node {
                if *markdown {
                    return Err(CompileError::Io(copy_str("Invalid item name")));
                }
            }
            if is_document {
                match node {
                    Node::Nameless { directory, markdown } => {},
                    Node::Dir { name, listing: inner } => {
                        return Err(CompileError::Io(join2("is a directory: ", name.as_str())));
                    },
                    Node::File { name, content } => {
                        match self.scan_item(
                            category_name,
                            dir_name,
                            listing,
                            name.as_str(),
                            content,
                        ) {
                            Err(e) => {
                                return Err(e);
                            },
                            Ok(item) => {
                                items.push(item);
                                assert(items_view(items@) =~= acc + seq![item@]);
                            },
                        }
                    },
                }
            }
            i += 1;
        }
        proof {
            lemma_gather_done(all, step, items_view(items@));
        }
        match &listing.failure {
            Some(m) => Err(CompileError::Io(m.clone())),
            None => Ok(items),
        }
    }

    /// Scans one document of an item directory with the attachments of the
    /// directory.
    pub fn scan_item(
        &self,
        category_name: &str,
        dir_name: &str,
        listing: &Listing,
        file_name: &str,
        content: &Result<Vec<u8>, String>,
    ) -> (r: Result<ContentItem, CompileError>)
        ensures
            item_outcome(r) == scanned_item(
                self.content_dir@,
                category_name@,
                dir_name@,
                *listing,
                file_name@,
                *content,
            ),
            r matches Ok(item) ==> distinct_names(item@.attachments),
    {
        let doc = match read_document(content) {
            Err(e) => {
                return Err(e);
            },
            Ok(doc) => doc,
        };
        let attachments: Vec<Attachment> = match find_entry(&listing.entries, "attachment") {
            Some(Node::Dir { name, listing: inner }) => match scan_attachments(dir_name, inner) {
                Err(e) => {
                    return Err(e);
                },
                Ok(list) => list,
            },
            _ => {
                let none: Vec<Attachment> = Vec::new();
                assert(attachments_view(none@) =~= Seq::<AttachmentModel>::empty());
                none
            },
        };
        let item_name = file_stem(file_name);
        let url = join3(category_name, "-", item_name.as_str());
        proof {
            reveal_strlit("-");
            assert("-"@ =~= seq!['-']);
        }
        let mut path = chars_of(self.content_dir.as_str());
        path.push('/');
        push_str(&mut path, category_name);
        path.push('/');
        push_str(&mut path, dir_name);
        path.push('/');
        push_str(&mut path, file_name);
        assert(path@ =~= document_path(
            self.content_dir@,
            category_name@,
            dir_name@,
            file_name@,
        ));
        let title = doc.get_title();
        let date = doc.get_date();
        let tags: Vec<String> = match &doc.frontmatter.tags {
            Some(t) => copy_list(t),
            None => {
                let none: Vec<String> = Vec::new();
                assert(list_view(none@) =~= Seq::<Seq<char>>::empty());
                none
            },
        };
        Ok(
            ContentItem {
                category: copy_str(category_name),
                item_name,
                dir_name: copy_str(dir_name),
                url,
                file_path: string_of(&path),
                title,
                date,
                author: copy_opt(&doc.frontmatter.author),
                description: copy_opt(&doc.frontmatter.description),
                html_content: doc.html_content,
                attachments,
                tags,
            },
        )
    }
}

/// No two entries that have a name have the same name, as in every
/// directory.
pub open spec fn distinct_entry_names(entries: Seq<Node>) -> bool {
    forall|i: int, j: int|
        #![trigger entries[i], entries[j]]
        0 <= i < j < entries.len() ==> node_name(entries[i]) is None || node_name(entries[i])
            != node_name(entries[j])
}

/// An entry of `entries` has the name `name`.
pub open spec fn named_in(entries: Seq<Node>, name: Seq<char>) -> bool {
    exists|m: int| 0 <= m < entries.len() && node_name(#[trigger] entries[m]) == Some(name)
}

/// The names of the categories go strictly up.
pub open spec fn strictly_ascending(categories: Seq<CategoryModel>) -> bool {
    forall|i: int, j: int|
        #![trigger categories[i], categories[j]]
        0 <= i < j < categories.len() ==> text_lt(
            categories[i].name,
            categories[j].name,
        )
}

/// The name of a category.
pub open spec fn category_name() -> spec_fn(CategoryModel) -> Seq<char> {
    |c: CategoryModel| c.name
}

/// The categories that a walk through the content directory gathers have the
/// names of entries, each its items in their order, and no two of them the
/// same name where no two entries have.
proof fn lemma_gathered_categories(content_dir: Seq<char>, entries: Seq<Node>)
    requires
        gather(entries, category_step(content_dir)) is Ok,
    ensures
        ({
            let cs = gather(entries, category_step(content_dir))->Ok_0;
            &&& forall|k: int| 0 <= k < cs.len() ==> named_in(entries, (#[trigger] cs[k]).name)
            &&& items_in_order(cs)
            &&& distinct_entry_names(entries) ==> distinct_keys(cs, category_name())
        }),
    decreases entries.len(),
{
    let step = category_step(content_dir);
    let cs = gather(entries, step)->Ok_0;
    if entries.len() > 0 {
        let rest = entries.skip(1);
        let first = step(entries[0])->Ok_0;
        let more = gather(rest, step)->Ok_0;
        lemma_gathered_categories(content_dir, rest);
        assert(cs == first + more);
        assert forall|k: int| 0 <= k < first.len() implies node_name(entries[0]) == Some(
            (#[trigger] first[k]).name,
        ) && in_rank_order(first[k].items) by {
            match entries[0] {
                Node::Nameless { directory, markdown } => {},
                Node::File { name, content } => {},
                Node::Dir { name, listing } => {
                    match gather_listing(listing, directory_step(content_dir, name@)) {
                        Ok(items) => lemma_ranked_in_order(items),
                        Err(e) => {},
                    }
                },
            }
        }
        assert(first.len() <= 1) by {
            match entries[0] {
                Node::Nameless { directory, markdown } => {},
                Node::File { name, content } => {},
                Node::Dir { name, listing } => {},
            }
        }
        assert forall|k: int| 0 <= k < cs.len() implies named_in(entries, (#[trigger] cs[k]).name)
            && in_rank_order(cs[k].items) by {
            if k < first.len() {
                assert(cs[k] == first[k]);
                assert(node_name(entries[0]) == Some(cs[k].name));
            } else {
                assert(cs[k] == more[k - first.len()]);
                assert(named_in(rest, more[k - first.len()].name));
                let m = choose|m: int|
                    0 <= m < rest.len() && node_name(#[trigger] rest[m]) == Some(cs[k].name);
                assert(rest[m] == entries[m + 1]);
            }
        }
        if distinct_entry_names(entries) {
            assert forall|i: int, j: int| #![trigger rest[i], rest[j]] 0 <= i < j
                < rest.len() implies node_name(rest[i]) is None || node_name(rest[i])
                != node_name(rest[j]) by {
                assert(rest[i] == entries[i + 1] && rest[j] == entries[j + 1]);
            }
            assert forall|i: int, j: int| #![trigger cs[i], cs[j]] 0 <= i < j
                < cs.len() implies category_name()(cs[i]) != category_name()(cs[j]) by {
                if i < first.len() {
                    assert(cs[i] == first[i]);
                    assert(cs[j] == more[j - first.len()]);
                    assert(named_in(rest, more[j - first.len()].name));
                    let m = choose|m: int|
                        0 <= m < rest.len() && node_name(#[trigger] rest[m]) == Some(cs[j].name);
                    assert(rest[m] == entries[m + 1]);
                    assert(node_name(entries[0]) is Some);
                    assert(node_name(entries[0]) != node_name(entries[m + 1]));
                } else {
                    assert(cs[i] == more[i - first.len()]);
                    assert(cs[j] == more[j - first.len()]);
                }
            }
        }
    }
}

/// What the order of items means: of two items of which the first may stand
/// before the second, the second has a day only where the first has one that
/// is no earlier, and the first is without a day only where the second is
/// too and has no earlier name.
pub proof fn lemma_item_order(a: ItemModel, b: ItemModel)
    requires
        Rank::precedes(&a, &b),
    ensures
        b.date matches Some(later) ==> a.date matches Some(first) && text_le(
            later,
            first,
        ),
        a.date is None ==> b.date is None && text_le(a.item_name, b.item_name),
{
}

/// The order of a scanned site: the names of the categories go up, strictly
/// where no two entries of the content directory have the same name, and
/// every category holds its items in their order: those with a day first,
/// later days before earlier ones, then those without a day in the order of
/// their names.
pub proof fn lemma_scan_order(content_dir: Seq<char>, root: Listing)
    requires
        site_of(content_dir, root) is Ok,
    ensures
        ({
            let site = site_of(content_dir, root)->Ok_0;
            &&& in_rank_order(site.categories)
            &&& items_in_order(site.categories)
            &&& distinct_entry_names(root.entries@) ==> strictly_ascending(site.categories)
        }),
{
    let cs = gather(root.entries@, category_step(content_dir))->Ok_0;
    let out = ranked(cs);
    lemma_gathered_categories(content_dir, root.entries@);
    lemma_ranked_in_order(cs);
    lemma_ranked_same_elements(cs);
    assert forall|k: int| 0 <= k < out.len() implies in_rank_order((#[trigger] out[k]).items) by {
        assert(out.contains(out[k]));
        assert(cs.contains(out[k]));
        let m = choose|m: int| 0 <= m < cs.len() && cs[m] == out[k];
        assert(in_rank_order(cs[m].items));
    }
    if distinct_entry_names(root.entries@) {
        lemma_ranked_keeps_distinct(cs, category_name());
        assert forall|i: int, j: int| #![trigger out[i], out[j]] 0 <= i < j
            < out.len() implies text_lt(out[i].name, out[j].name) by {
            assert(Rank::precedes(&out[i], &out[j]));
            assert(category_name()(out[i]) != category_name()(out[j]));
        }
    }
}

/// The attachments of an item have the names that the scan gives: the name
/// of the item's directory, an underscore, the place of the attachment
/// counted from 1, a dot and its extension; no two of them the same.
pub open spec fn well_named(item: ItemModel) -> bool {
    &&& distinct_names(item.attachments)
    &&& forall|k: int|
        0 <= k < item.attachments.len() ==> (#[trigger] item.attachments[k]).new_name
            == crate::attachments::attachment_name(
            item.dir_name,
            (k + 1) as nat,
            item.attachments[k].file_type,
        )
}

/// `well_named` as a property.
pub open spec fn named() -> spec_fn(ItemModel) -> bool {
    |item: ItemModel| well_named(item)
}

/// Every item of a category is well named.
pub open spec fn named_category() -> spec_fn(CategoryModel) -> bool {
    |c: CategoryModel| crate::source::all_hold(c.items, named())
}

/// The items that the scan makes of any entry of an item directory are well
/// named.
proof fn lemma_documents_named(
    content_dir: Seq<char>,
    category: Seq<char>,
    dir_name: Seq<char>,
    listing: Listing,
    n: Node,
)
    ensures
        document_items(content_dir, category, dir_name, listing, n) matches Ok(found)
            ==> crate::source::all_hold(found, named()),
{
    match document_items(content_dir, category, dir_name, listing, n) {
        Ok(found) => {
            if found.len() > 0 {
                let item = found[0];
                match find_node(listing.entries@, "attachment"@) {
                    Some(Node::Dir { name, listing: inner }) => {
                        match gather_listing(inner, crate::attachments::kept_step()) {
                            Ok(kept) => crate::attachments::lemma_numbered_names(dir_name, kept),
                            Err(e) => {},
                        }
                    },
                    _ => {},
                }
                assert(well_named(item));
            }
        },
        Err(e) => {},
    }
}

/// The items that the scan makes of any entry of a category directory are
/// well named.
proof fn lemma_directory_named(content_dir: Seq<char>, category: Seq<char>, n: Node)
    ensures
        directory_items(content_dir, category, n) matches Ok(found) ==> crate::source::all_hold(
            found,
            named(),
        ),
{
    match n {
        Node::Nameless { directory, markdown } => {},
        Node::File { name, content } => {},
        Node::Dir { name, listing } => {
            let step = document_step(content_dir, category, name@, listing);
            assert forall|m: Node|
                ((#[trigger] step(m)) matches Ok(found) ==> crate::source::all_hold(
                    found,
                    named(),
                )) by {
                lemma_documents_named(content_dir, category, name@, listing, m);
            }
            crate::source::lemma_gather_all(listing.entries@, step, named());
        },
    }
}

/// The categories that the scan makes of any entry of the content directory
/// hold well-named items only.
proof fn lemma_category_named(content_dir: Seq<char>, n: Node)
    ensures
        directory_categories(content_dir, n) matches Ok(found) ==> crate::source::all_hold(
            found,
            named_category(),
        ),
{
    match n {
        Node::Nameless { directory, markdown } => {},
        Node::File { name, content } => {},
        Node::Dir { name, listing } => {
            let step = directory_step(content_dir, name@);
            assert forall|m: Node|
                ((#[trigger] step(m)) matches Ok(found) ==> crate::source::all_hold(
                    found,
                    named(),
                )) by {
                lemma_directory_named(content_dir, name@, m);
            }
            crate::source::lemma_gather_all(listing.entries@, step, named());
            match gather_listing(listing, step) {
                Ok(items) => {
                    lemma_ranked_same_elements(items);
                    let out = ranked(items);
                    assert forall|k: int| 0 <= k < out.len() implies named()(#[trigger] out[k]) by {
                        assert(out.contains(out[k]));
                        assert(items.contains(out[k]));
                        let m = choose|m: int| 0 <= m < items.len() && items[m] == out[k];
                        assert(named()(items[m]));
                    }
                },
                Err(e) => {},
            }
        },
    }
}

/// The names of the attachments of a scanned site: every item of every
/// category has, for each of the files of its attachment directory that the
/// scan keeps, one attachment; the attachment in place `k`, counted from 1,
/// has the name of the item's directory, an underscore, `k`, a dot and its
/// extension; and no two attachments of an item have the same name.
pub proof fn lemma_scan_names(content_dir: Seq<char>, root: Listing)
    requires
        site_of(content_dir, root) is Ok,
    ensures
        crate::source::all_hold(site_of(content_dir, root)->Ok_0.categories, named_category()),
{
    let step = category_step(content_dir);
    assert forall|m: Node|
        ((#[trigger] step(m)) matches Ok(found) ==> crate::source::all_hold(
            found,
            named_category(),
        )) by {
        lemma_category_named(content_dir, m);
    }
    crate::source::lemma_gather_all(root.entries@, step, named_category());
    let cs = gather(root.entries@, step)->Ok_0;
    let out = ranked(cs);
    lemma_ranked_same_elements(cs);
    assert forall|k: int| 0 <= k < out.len() implies named_category()(#[trigger] out[k]) by {
        assert(out.contains(out[k]));
        assert(cs.contains(out[k]));
        let m = choose|m: int| 0 <= m < cs.len() && cs[m] == out[k];
        assert(named_category()(cs[m]));
    }
}

} // verus!
