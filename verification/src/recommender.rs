//! Recommendations: the keywords of the items of a site, and where to find
//! an item or the name of a category.

use crate::content::{
    all_items_of, item_refs_view, CategoryModel, ContentItem, ItemModel, SiteContent, SiteModel,
};
use crate::markdown::byte_len;
use crate::query::lemma_filter_next;
use crate::table::{ascending, get, get_row, lemma_put, put, put_row, row_models, Keyed, Row};
use crate::text::{
    chars_of, copy_str, is_space, is_space_char, list_view, lowercase, lowercase_of, str_eq,
    string_of,
};
use vstd::prelude::*;
use vstd::string::StringSliceAdditionalSpecFns;

verus! {

/// The word that is being read, as a list of words: none where nothing was
/// read yet.
pub open spec fn word_read(current: Seq<char>) -> Seq<Seq<char>> {
    if current.len() > 0 {
        seq![current]
    } else {
        Seq::empty()
    }
}

/// The words of `s` from position `i` on, where `current` was read of a word
/// before `i`. Words are what stands between white space.
pub open spec fn words_from(s: Seq<char>, i: int, current: Seq<char>) -> Seq<Seq<char>>
    decreases s.len() - i,
{
    if i < 0 || i >= s.len() {
        word_read(current)
    } else if is_space(s[i]) {
        word_read(current) + words_from(s, i + 1, Seq::empty())
    } else {
        words_from(s, i + 1, current.push(s[i]))
    }
}

/// The words of `s`: what stands between white space, in order.
pub open spec fn words(s: Seq<char>) -> Seq<Seq<char>> {
    words_from(s, 0, Seq::empty())
}

/// Whether a word takes more than one byte in UTF-8.
pub open spec fn is_long() -> spec_fn(Seq<char>) -> bool {
    |w: Seq<char>| byte_len(w) > 1
}

/// The words of `s` that take more than one byte.
pub open spec fn long_words(s: Seq<char>) -> Seq<Seq<char>> {
    words(s).filter(is_long())
}

/// The keywords of an item: the long words of its title, then those of its
/// description, then its category.
pub open spec fn keywords_of(item: ItemModel) -> Seq<Seq<char>> {
    long_words(item.title) + (match item.description {
        Some(d) => long_words(d),
        None => Seq::empty(),
    }) + seq![item.category]
}

/// The words of `text`.
pub fn split_words(text: &str) -> (out: Vec<String>)
    ensures
        list_view(out@) == words(text@),
{
    let chars = chars_of(text);
    let mut out: Vec<String> = Vec::new();
    let mut current: Vec<char> = Vec::new();
    let mut i: usize = 0;
    assert(list_view(out@) + words_from(chars@, 0, current@) =~= words(chars@));
    while i < chars.len()
        invariant
            i <= chars.len(),
            list_view(out@) + words_from(chars@, i as int, current@) == words(chars@),
        decreases chars.len() - i,
    {
        let ghost done = list_view(out@);
        let ghost word = current@;
        let ghost rest = words_from(chars@, i + 1, Seq::empty());
        let c: char = chars[i];
        if is_space_char(c) {
            assert(words_from(chars@, i as int, word) == word_read(word) + rest);
            if current.len() > 0 {
                out.push(string_of(&current));
                assert(list_view(out@) =~= done + seq![word]);
                assert(done + (seq![word] + rest) =~= (done + seq![word]) + rest);
                current = Vec::new();
                assert(current@ =~= Seq::<char>::empty());
                assert(list_view(out@) + words_from(chars@, i + 1, current@) == words(chars@));
            } else {
                assert(word =~= Seq::<char>::empty());
                assert(done + (Seq::<Seq<char>>::empty() + rest) =~= done + rest);
            }
        } else {
            assert(words_from(chars@, i as int, word) == words_from(
                chars@,
                i + 1,
                word.push(c),
            ));
            current.push(c);
        }
        i += 1;
    }
    if current.len() > 0 {
        let ghost done = list_view(out@);
        out.push(string_of(&current));
        assert(list_view(out@) =~= done + seq![current@]);
    } else {
        assert(list_view(out@) + Seq::<Seq<char>>::empty() =~= list_view(out@));
    }
    out
}

/// Appends the long words of `text` to `out`.
fn push_long_words(out: &mut Vec<String>, text: &str)
    ensures
        list_view(final(out)@) == list_view(old(out)@) + long_words(text@),
{
    let all = split_words(text);
    let ghost start = list_view(out@);
    let ghost list = list_view(all@);
    let mut i: usize = 0;
    proof {
        reveal(Seq::filter);
        assert(list.take(0) =~= Seq::<Seq<char>>::empty());
        assert(start + list.take(0).filter(is_long()) =~= start);
    }
    while i < all.len()
        invariant
            i <= all.len(),
            list == list_view(all@),
            list_view(out@) == start + list.take(i as int).filter(is_long()),
        decreases all.len() - i,
    {
        let ghost before = list_view(out@);
        let ghost kept = list.take(i as int).filter(is_long());
        proof {
            lemma_filter_next(list, is_long(), i as int);
            assert(list[i as int] == all@[i as int]@);
        }
        if all[i].as_str().len() > 1 {
            out.push(all[i].clone());
            assert(list_view(out@) =~= before.push(list[i as int]));
            assert(start + kept.push(list[i as int]) =~= (start + kept).push(list[i as int]));
        }
        i += 1;
    }
    assert(list.take(all.len() as int) =~= list);
}

/// The first item of `items` with the slug `url`.
pub open spec fn first_with_url(items: Seq<ItemModel>, url: Seq<char>) -> Option<ItemModel>
    decreases items.len(),
{
    if items.len() == 0 {
        None
    } else if items[0].url == url {
        Some(items[0])
    } else {
        first_with_url(items.skip(1), url)
    }
}

/// The name of the first category of `categories` with the slug `url`, or
/// `url` itself where none has it.
pub open spec fn category_name_of(categories: Seq<CategoryModel>, url: Seq<char>) -> Seq<char>
    decreases categories.len(),
{
    if categories.len() == 0 {
        url
    } else if categories[0].url == url {
        categories[0].name
    } else {
        category_name_of(categories.skip(1), url)
    }
}

/// A keyword with the items that have it: their places among all items, in
/// the order in which they were noted.
#[derive(Debug)]
pub struct KeywordEntry {
    pub keyword: String,
    pub items: Vec<usize>,
}

/// A `KeywordEntry` with its keyword as a sequence of characters.
pub struct KeywordModel {
    pub keyword: Seq<char>,
    pub items: Seq<usize>,
}

impl View for KeywordEntry {
    type V = KeywordModel;

    open spec fn view(&self) -> KeywordModel {
        KeywordModel { keyword: self.keyword@, items: self.items@ }
    }
}

impl Keyed for KeywordModel {
    open spec fn key(&self) -> Seq<char> {
        self.keyword
    }
}

impl Row for KeywordEntry {
    type Model = KeywordModel;

    open spec fn model(&self) -> KeywordModel {
        self@
    }

    fn key_text(&self) -> (k: &str) {
        self.keyword.as_str()
    }
}

/// The index after the item in place `place` was noted under `keyword`.
pub open spec fn noted(index: Seq<KeywordModel>, keyword: Seq<char>, place: usize) -> Seq<
    KeywordModel,
> {
    put(
        index,
        KeywordModel {
            keyword: keyword,
            items: match get(index, keyword) {
                Some(e) => e.items.push(place),
                None => seq![place],
            },
        },
    )
}

/// The index after the item in place `place` was noted under each of
/// `keywords`, in lower case.
pub open spec fn noted_all(index: Seq<KeywordModel>, keywords: Seq<Seq<char>>, place: usize) -> Seq<
    KeywordModel,
>
    decreases keywords.len(),
{
    if keywords.len() == 0 {
        index
    } else {
        noted_all(noted(index, lowercase_of(keywords[0]), place), keywords.skip(1), place)
    }
}

/// The index after the items from place `from` on were noted under their
/// keywords.
pub open spec fn indexed_from(index: Seq<KeywordModel>, items: Seq<ItemModel>, from: int) -> Seq<
    KeywordModel,
>
    decreases items.len() - from,
{
    if from < 0 || from >= items.len() {
        index
    } else {
        indexed_from(noted_all(index, keywords_of(items[from]), from as usize), items, from + 1)
    }
}

/// The index of the keywords of `items`: under every keyword, in lower case,
/// the places of the items that have it.
pub open spec fn keyword_index_of(items: Seq<ItemModel>) -> Seq<KeywordModel> {
    indexed_from(Seq::empty(), items, 0)
}

/// Notes the item in place `place` under `keyword`.
fn note(index: &mut Vec<KeywordEntry>, keyword: String, place: usize)
    requires
        ascending(row_models(old(index)@)),
    ensures
        ascending(row_models(final(index)@)),
        row_models(final(index)@) == noted(row_models(old(index)@), keyword@, place),
{
    let mut items: Vec<usize> = Vec::new();
    match get_row(index, keyword.as_str()) {
        Some(e) => {
            let mut j: usize = 0;
            while j < e.items.len()
                invariant
                    j <= e.items.len(),
                    items@ == e.items@.take(j as int),
                decreases e.items.len() - j,
            {
                items.push(e.items[j]);
                assert(e.items@.take(j + 1) =~= e.items@.take(j as int).push(e.items@[j as int]));
                j += 1;
            }
            assert(e.items@.take(e.items.len() as int) =~= e.items@);
        },
        None => {},
    }
    items.push(place);
    let entry = KeywordEntry { keyword, items };
    proof {
        assert(entry@.items =~= match get(row_models(index@), entry@.keyword) {
            Some(e) => e.items.push(place),
            None => seq![place],
        });
        lemma_put(row_models(index@), entry@);
    }
    put_row(index, entry);
}

/// Recommends items of a site.
pub struct Recommender {
    site_content: SiteContent,
    keyword_index: Vec<KeywordEntry>,
}

impl Recommender {
    /// The site that is recommended from.
    pub closed spec fn site(&self) -> SiteModel {
        self.site_content@
    }

    /// The index of keywords.
    pub closed spec fn index(&self) -> Seq<KeywordModel> {
        row_models(self.keyword_index@)
    }

    /// The keywords of an item: the words of its title and of its
    /// description that take more than one byte, and its category.
    pub fn extract_keywords(item: &ContentItem) -> (keywords: Vec<String>)
        ensures
            list_view(keywords@) == keywords_of(item@),
    {
        let mut keywords: Vec<String> = Vec::new();
        assert(list_view(keywords@) =~= Seq::<Seq<char>>::empty());
        push_long_words(&mut keywords, item.title.as_str());
        assert(list_view(keywords@) =~= long_words(item@.title));
        match &item.description {
            Some(d) => {
                push_long_words(&mut keywords, d.as_str());
            },
            None => {
                assert(list_view(keywords@) + Seq::<Seq<char>>::empty() =~= list_view(keywords@));
            },
        }
        let ghost before = list_view(keywords@);
        keywords.push(item.category.clone());
        assert(list_view(keywords@) =~= before + seq![item@.category]);
        keywords
    }

    /// A recommender for `site_content`, with every item noted under each of
    /// its keywords in lower case.
    pub fn new(site_content: SiteContent) -> (r: Self)
        ensures
            r.site() == site_content@,
            r.index() == keyword_index_of(all_items_of(site_content@.categories)),
            ascending(r.index()),
    {
        let mut index: Vec<KeywordEntry> = Vec::new();
        {
            let items = site_content.all_items();
            let ghost all = item_refs_view(items@);
            let mut i: usize = 0;
            assert(row_models(index@) =~= Seq::<KeywordModel>::empty());
            while i < items.len()
                invariant
                    i <= items.len(),
                    all == item_refs_view(items@),
                    ascending(row_models(index@)),
                    indexed_from(row_models(index@), all, i as int) == keyword_index_of(all),
                decreases items.len() - i,
            {
                let keywords = Self::extract_keywords(items[i]);
                let ghost keys = list_view(keywords@);
                assert(keys == keywords_of(all[i as int]));
                let ghost start = row_models(index@);
                let mut k: usize = 0;
                assert(keys.skip(0) =~= keys);
                while k < keywords.len()
                    invariant
                        k <= keywords.len(),
                        keys == list_view(keywords@),
                        ascending(row_models(index@)),
                        noted_all(row_models(index@), keys.skip(k as int), i) == noted_all(
                            start,
                            keys,
                            i,
                        ),
                    decreases keywords.len() - k,
                {
                    assert(keys.skip(k as int)[0] == keywords@[k as int]@);
                    assert(keys.skip(k as int).skip(1) =~= keys.skip(k + 1));
                    note(&mut index, lowercase(keywords[k].as_str()), i);
                    k += 1;
                }
                assert(keys.skip(keywords.len() as int) =~= Seq::<Seq<char>>::empty());
                i += 1;
            }
        }
        Recommender { site_content, keyword_index: index }
    }

    /// The places, among all items, of the items noted under `keyword`.
    pub fn items_with_keyword(&self, keyword: &str) -> (r: Option<Vec<usize>>)
        ensures
            match r {
                Some(places) => get(self.index(), keyword@) matches Some(e) && e.items == places@,
                None => get(self.index(), keyword@) is None,
            },
    {
        match get_row(&self.keyword_index, keyword) {
            Some(e) => {
                let mut places: Vec<usize> = Vec::new();
                let mut j: usize = 0;
                while j < e.items.len()
                    invariant
                        j <= e.items.len(),
                        places@ == e.items@.take(j as int),
                    decreases e.items.len() - j,
                {
                    places.push(e.items[j]);
                    assert(e.items@.take(j + 1) =~= e.items@.take(j as int).push(
                        e.items@[j as int],
                    ));
                    j += 1;
                }
                assert(e.items@.take(e.items.len() as int) =~= e.items@);
                Some(places)
            },
            None => None,
        }
    }

    /// The first item with the slug `url`.
    pub fn find_item_by_url(&self, url: &str) -> (r: Option<&ContentItem>)
        ensures
            match r {
                Some(item) => first_with_url(all_items_of(self.site().categories), url@) == Some(
                    item@,
                ),
                None => first_with_url(all_items_of(self.site().categories), url@) is None,
            },
    {
        let items = self.site_content.all_items();
        let ghost all = item_refs_view(items@);
        let mut i: usize = 0;
        assert(all.skip(0) =~= all);
        while i < items.len()
            invariant
                i <= items.len(),
                all == item_refs_view(items@),
                all == all_items_of(self.site().categories),
                first_with_url(all, url@) == first_with_url(all.skip(i as int), url@),
            decreases items.len() - i,
        {
            assert(all.skip(i as int)[0] == items@[i as int]@);
            assert(all.skip(i as int).skip(1) =~= all.skip(i + 1));
            if str_eq(items[i].url.as_str(), url) {
                return Some(items[i]);
            }
            i += 1;
        }
        None
    }

    /// The name of the category with the slug `category_url`, or the slug
    /// itself where no category has it.
    pub fn get_category_name(&self, category_url: &str) -> (name: String)
        ensures
            name@ == category_name_of(self.site().categories, category_url@),
    {
        let ghost all = self.site_content@.categories;
        let mut i: usize = 0;
        assert(all.skip(0) =~= all);
        while i < self.site_content.categories.len()
            invariant
                i <= self.site_content.categories.len(),
                all == self.site_content@.categories,
                category_name_of(all, category_url@) == category_name_of(
                    all.skip(i as int),
                    category_url@,
                ),
            decreases self.site_content.categories.len() - i,
        {
            let category = &self.site_content.categories[i];
            assert(all.skip(i as int)[0] == category@);
            assert(all.skip(i as int).skip(1) =~= all.skip(i + 1));
            if str_eq(category.url.as_str(), category_url) {
                return category.name.clone();
            }
            i += 1;
        }
        copy_str(category_url)
    }
}

} // verus!
