//! Documents: a metadata block in YAML between two marks of three dashes,
//! then a body in markdown.

use crate::error::{ParseError, ParseErrorModel};
use crate::order::{ranked, sort_ranked, Rank, Sortable};
use crate::text::{
    chars_of, copy_opt, copy_str, first_line, first_line_of, list_view, opt_view, replace_all,
    skip_spaces, str_eq, str_replace, string_of_range, trim_start,
};
use serde_yaml::Value;
use vstd::prelude::*;
use vstd::string::StringSliceAdditionalSpecFns;

verus! {

/// The value that a metadata key holds, as far as this library tells values
/// apart.
#[derive(Debug)]
pub enum FieldValue {
    /// Nothing: the key stands alone, or holds `null`.
    Null,
    /// A string.
    Text(String),
    /// A list; each item is its string, or `None` where it is no string.
    List(Vec<Option<String>>),
    /// A truth value.
    Bool(bool),
    /// A number.
    Number,
    /// A mapping.
    Mapping,
    /// A value with a tag.
    Tagged,
}

/// A `FieldValue` with its texts as sequences of characters.
pub enum FieldModel {
    Null,
    Text(Seq<char>),
    List(Seq<Option<Seq<char>>>),
    Bool(bool),
    Number,
    Mapping,
    Tagged,
}

/// The items of a list, each string as its sequence of characters.
pub open spec fn items_view(items: Seq<Option<String>>) -> Seq<Option<Seq<char>>> {
    items.map_values(|i: Option<String>| opt_view(i))
}

impl View for FieldValue {
    type V = FieldModel;

    open spec fn view(&self) -> FieldModel {
        match self {
            FieldValue::Null => FieldModel::Null,
            FieldValue::Text(t) => FieldModel::Text(t@),
            FieldValue::List(items) => FieldModel::List(items_view(items@)),
            FieldValue::Bool(b) => FieldModel::Bool(*b),
            FieldValue::Number => FieldModel::Number,
            FieldValue::Mapping => FieldModel::Mapping,
            FieldValue::Tagged => FieldModel::Tagged,
        }
    }
}

impl FieldValue {
    /// A copy of this value.
    pub fn duplicate(&self) -> (out: FieldValue)
        ensures
            out@ == self@,
    {
        match self {
            FieldValue::Null => FieldValue::Null,
            FieldValue::Text(t) => FieldValue::Text(t.clone()),
            FieldValue::List(items) => {
                let mut copy: Vec<Option<String>> = Vec::new();
                let mut i: usize = 0;
                while i < items.len()
                    invariant
                        i <= items.len(),
                        copy.len() == i,
                        forall|j: int| 0 <= j < i ==> opt_view(copy@[j]) == opt_view(items@[j]),
                    decreases items.len() - i,
                {
                    copy.push(copy_opt(&items[i]));
                    i += 1;
                }
                assert(items_view(copy@) =~= items_view(items@));
                FieldValue::List(copy)
            },
            FieldValue::Bool(b) => FieldValue::Bool(*b),
            FieldValue::Number => FieldValue::Number,
            FieldValue::Mapping => FieldValue::Mapping,
            FieldValue::Tagged => FieldValue::Tagged,
        }
    }
}

/// The keys and values of a metadata block, as sequences of characters.
pub open spec fn entries_view(entries: Seq<(String, FieldValue)>) -> Seq<(Seq<char>, FieldModel)> {
    entries.map_values(|e: (String, FieldValue)| (e.0@, e.1@))
}

/// What `yaml_entries` makes of a text: the keys and values of the mapping
/// that the text is in YAML, in the order of the keys, or why it is none.
pub uninterp spec fn yaml_entries_of(text: Seq<char>) -> Result<
    Seq<(Seq<char>, FieldModel)>,
    Seq<char>,
>;

/// The view of what `yaml_entries` returns.
pub open spec fn entries_outcome(r: Result<Vec<(String, FieldValue)>, String>) -> Result<
    Seq<(Seq<char>, FieldModel)>,
    Seq<char>,
> {
    match r {
        Ok(entries) => Ok(entries_view(entries@)),
        Err(m) => Err(m@),
    }
}

/// Reads `text` as a YAML mapping with `serde_yaml::from_str` and hands out
/// its entries, each value by its kind: strings and lists with what they
/// hold, the other kinds by their kind. The YAML reader decides what is a
/// mapping and what each key holds; the contract only gives that outcome a
/// name, the same for the same text.
#[verifier::external_body]
fn yaml_entries(text: &str) -> (r: Result<Vec<(String, FieldValue)>, String>)
    ensures
        entries_outcome(r) == yaml_entries_of(text@),
{
    let doc: std::collections::BTreeMap<String, Value> = serde_yaml::from_str(text).map_err(
        |e| e.to_string(),
    )?;
    Ok(doc.into_iter().map(|(key, value)| (key, match value {
        Value::Null => FieldValue::Null,
        Value::Bool(b) => FieldValue::Bool(b),
        Value::Number(_) => FieldValue::Number,
        Value::String(s) => FieldValue::Text(s),
        Value::Sequence(items) => FieldValue::List(
            items.iter().map(|i| i.as_str().map(String::from)).collect(),
        ),
        Value::Mapping(_) => FieldValue::Mapping,
        Value::Tagged(_) => FieldValue::Tagged,
    })).collect())
}

/// The metadata of a document.
#[derive(Debug)]
pub struct Frontmatter {
    pub title: Option<String>,
    pub date: Option<String>,
    pub author: Option<String>,
    pub tags: Option<Vec<String>>,
    pub description: Option<String>,
    /// Another name for `date`; where both stand, this one counts.
    pub time: Option<String>,
    /// The entries under other keys, each with the kind of its value.
    pub extra: Vec<(String, FieldValue)>,
    /// The metadata block as it was written, so that nothing in it is lost.
    pub source: String,
}

/// A `Frontmatter` with its texts as sequences of characters.
pub struct FrontmatterModel {
    pub title: Option<Seq<char>>,
    pub date: Option<Seq<char>>,
    pub author: Option<Seq<char>>,
    pub tags: Option<Seq<Seq<char>>>,
    pub description: Option<Seq<char>>,
    pub time: Option<Seq<char>>,
    pub extra: Seq<(Seq<char>, FieldModel)>,
    pub source: Seq<char>,
}

/// The texts of an optional list of strings.
pub open spec fn opt_list_view(tags: Option<Vec<String>>) -> Option<Seq<Seq<char>>> {
    match tags {
        Some(t) => Some(list_view(t@)),
        None => None,
    }
}

impl View for Frontmatter {
    type V = FrontmatterModel;

    open spec fn view(&self) -> FrontmatterModel {
        FrontmatterModel {
            title: opt_view(self.title),
            date: opt_view(self.date),
            author: opt_view(self.author),
            tags: opt_list_view(self.tags),
            description: opt_view(self.description),
            time: opt_view(self.time),
            extra: entries_view(self.extra@),
            source: self.source@,
        }
    }
}

/// The metadata of a document that has none.
pub open spec fn no_metadata() -> FrontmatterModel {
    FrontmatterModel {
        title: None,
        date: None,
        author: None,
        tags: None,
        description: None,
        time: None,
        extra: Seq::empty(),
        source: Seq::empty(),
    }
}

/// The value that `entries` holds under `key`: that of the first entry with
/// this key.
pub open spec fn lookup(entries: Seq<(Seq<char>, FieldModel)>, key: Seq<char>) -> Option<
    FieldModel,
>
    decreases entries.len(),
{
    if entries.len() == 0 {
        None
    } else if entries[0].0 == key {
        Some(entries[0].1)
    } else {
        lookup(entries.skip(1), key)
    }
}

/// The string under `key`: `Some(None)` where the key is missing or holds
/// nothing, `None` where it holds something that is no string.
pub open spec fn text_field(entries: Seq<(Seq<char>, FieldModel)>, key: Seq<char>) -> Option<
    Option<Seq<char>>,
> {
    match lookup(entries, key) {
        None => Some(None),
        Some(FieldModel::Null) => Some(None),
        Some(FieldModel::Text(t)) => Some(Some(t)),
        Some(_) => None,
    }
}

/// Whether every item of a list is a string.
pub open spec fn all_text(items: Seq<Option<Seq<char>>>) -> bool {
    forall|i: int| 0 <= i < items.len() ==> (#[trigger] items[i]) is Some
}

/// The list of strings under `key`: `Some(None)` where the key is missing or
/// holds nothing, `None` where it holds something that is no list of strings.
pub open spec fn list_field(entries: Seq<(Seq<char>, FieldModel)>, key: Seq<char>) -> Option<
    Option<Seq<Seq<char>>>,
> {
    match lookup(entries, key) {
        None => Some(None),
        Some(FieldModel::Null) => Some(None),
        Some(FieldModel::List(items)) => if all_text(items) {
            Some(Some(items.map_values(|i: Option<Seq<char>>| i.unwrap())))
        } else {
            None
        },
        Some(_) => None,
    }
}

/// Whether `key` is one of the keys that the metadata knows by name.
pub open spec fn is_known_key(key: Seq<char>) -> bool {
    key == "title"@ || key == "date"@ || key == "author"@ || key == "tags"@ || key
        == "description"@ || key == "time"@
}

/// The entries under keys that the metadata does not know by name.
pub open spec fn extra_entries(entries: Seq<(Seq<char>, FieldModel)>) -> Seq<
    (Seq<char>, FieldModel),
> {
    entries.filter(|e: (Seq<char>, FieldModel)| !is_known_key(e.0))
}

/// The metadata that a list of entries, read from the block `source`, stands
/// for, or the first known key, in the order title, date, author, tags,
/// description, time, whose value is of the wrong kind.
pub open spec fn frontmatter_of(entries: Seq<(Seq<char>, FieldModel)>, source: Seq<char>) -> Result<
    FrontmatterModel,
    Seq<char>,
> {
    if text_field(entries, "title"@) is None {
        Err("title"@)
    } else if text_field(entries, "date"@) is None {
        Err("date"@)
    } else if text_field(entries, "author"@) is None {
        Err("author"@)
    } else if list_field(entries, "tags"@) is None {
        Err("tags"@)
    } else if text_field(entries, "description"@) is None {
        Err("description"@)
    } else if text_field(entries, "time"@) is None {
        Err("time"@)
    } else {
        Ok(
            FrontmatterModel {
                title: text_field(entries, "title"@).unwrap(),
                date: text_field(entries, "date"@).unwrap(),
                author: text_field(entries, "author"@).unwrap(),
                tags: list_field(entries, "tags"@).unwrap(),
                description: text_field(entries, "description"@).unwrap(),
                time: text_field(entries, "time"@).unwrap(),
                extra: extra_entries(entries),
                source: source,
            },
        )
    }
}

/// The value under `key`, if an entry has this key.
fn find_entry<'a>(entries: &'a Vec<(String, FieldValue)>, key: &str) -> (r: Option<&'a FieldValue>)
    ensures
        match r {
            Some(v) => lookup(entries_view(entries@), key@) == Some(v@),
            None => lookup(entries_view(entries@), key@) is None,
        },
{
    let ghost all = entries_view(entries@);
    let mut i: usize = 0;
    assert(all.skip(0) =~= all);
    while i < entries.len()
        invariant
            i <= entries.len(),
            all == entries_view(entries@),
            lookup(all, key@) == lookup(all.skip(i as int), key@),
        decreases entries.len() - i,
    {
        assert(all.skip(i as int)[0] == all[i as int]);
        assert(all.skip(i as int).skip(1) =~= all.skip(i + 1));
        if str_eq(entries[i].0.as_str(), key) {
            return Some(&entries[i].1);
        }
        i += 1;
    }
    None
}

/// The string under `key`.
fn read_text(entries: &Vec<(String, FieldValue)>, key: &str) -> (r: Option<Option<String>>)
    ensures
        match r {
            Some(t) => text_field(entries_view(entries@), key@) == Some(opt_view(t)),
            None => text_field(entries_view(entries@), key@) is None,
        },
{
    match find_entry(entries, key) {
        None => Some(None),
        Some(FieldValue::Null) => Some(None),
        Some(FieldValue::Text(t)) => Some(Some(t.clone())),
        Some(_) => None,
    }
}

/// The list of strings under `key`.
fn read_list(entries: &Vec<(String, FieldValue)>, key: &str) -> (r: Option<Option<Vec<String>>>)
    ensures
        match r {
            Some(t) => list_field(entries_view(entries@), key@) == Some(opt_list_view(t)),
            None => list_field(entries_view(entries@), key@) is None,
        },
{
    match find_entry(entries, key) {
        None => Some(None),
        Some(FieldValue::Null) => Some(None),
        Some(FieldValue::List(items)) => {
            let ghost model = items_view(items@);
            let mut out: Vec<String> = Vec::new();
            let mut i: usize = 0;
            while i < items.len()
                invariant
                    i <= items.len(),
                    out.len() == i,
                    model == items_view(items@),
                    lookup(entries_view(entries@), key@) == Some(FieldModel::List(model)),
                    forall|j: int| 0 <= j < i ==> (#[trigger] model[j]) == Some(out@[j]@),
                decreases items.len() - i,
            {
                match &items[i] {
                    Some(t) => {
                        out.push(t.clone());
                    },
                    None => {
                        assert(model[i as int] is None);
                        return None;
                    },
                }
                i += 1;
            }
            assert(all_text(model));
            assert(list_view(out@) =~= model.map_values(|i: Option<Seq<char>>| i.unwrap()));
            Some(Some(out))
        },
        Some(_) => None,
    }
}

/// Whether `key` is one of the keys that the metadata knows by name.
fn known_key(key: &str) -> (r: bool)
    ensures
        r == is_known_key(key@),
{
    str_eq(key, "title") || str_eq(key, "date") || str_eq(key, "author") || str_eq(key, "tags")
        || str_eq(key, "description") || str_eq(key, "time")
}

/// The entries under keys that the metadata does not know by name.
fn read_extra(entries: &Vec<(String, FieldValue)>) -> (out: Vec<(String, FieldValue)>)
    ensures
        entries_view(out@) == extra_entries(entries_view(entries@)),
{
    let ghost all = entries_view(entries@);
    let ghost keep = |e: (Seq<char>, FieldModel)| !is_known_key(e.0);
    let mut out: Vec<(String, FieldValue)> = Vec::new();
    let mut i: usize = 0;
    assert(all.take(0) =~= Seq::empty());
    assert(entries_view(out@) =~= Seq::empty());
    while i < entries.len()
        invariant
            i <= entries.len(),
            all == entries_view(entries@),
            keep == |e: (Seq<char>, FieldModel)| !is_known_key(e.0),
            entries_view(out@) == all.take(i as int).filter(keep),
        decreases entries.len() - i,
    {
        let ghost before = entries_view(out@);
        assert(all.take(i + 1).drop_last() =~= all.take(i as int));
        assert(all.take(i + 1).last() == all[i as int]);
        reveal(Seq::filter);
        if !known_key(entries[i].0.as_str()) {
            out.push((entries[i].0.clone(), entries[i].1.duplicate()));
            assert(entries_view(out@) =~= before.push(all[i as int]));
        }
        i += 1;
    }
    assert(all.take(entries.len() as int) =~= all);
    out
}

/// The view of a metadata or of the key that kept it from being read.
pub open spec fn frontmatter_outcome(r: Result<Frontmatter, ParseError>) -> Result<
    FrontmatterModel,
    ParseErrorModel,
> {
    match r {
        Ok(f) => Ok(f@),
        Err(e) => Err(e@),
    }
}

/// The same outcome with the key of a failure as an error of parsing.
pub open spec fn as_field_error(r: Result<FrontmatterModel, Seq<char>>) -> Result<
    FrontmatterModel,
    ParseErrorModel,
> {
    match r {
        Ok(f) => Ok(f),
        Err(k) => Err(ParseErrorModel::Field(k)),
    }
}

impl Frontmatter {
    /// The metadata of a document that has none.
    pub fn empty() -> (f: Frontmatter)
        ensures
            f@ == no_metadata(),
    {
        let f = Frontmatter {
            title: None,
            date: None,
            author: None,
            tags: None,
            description: None,
            time: None,
            extra: Vec::new(),
            source: String::new(),
        };
        assert(entries_view(f.extra@) =~= Seq::empty());
        f
    }

    /// The metadata that a list of entries, read from the block `source`,
    /// stands for. A known key whose value is of the wrong kind is an error
    /// that names the key.
    pub fn from_entries(entries: &Vec<(String, FieldValue)>, source: &str) -> (r: Result<
        Frontmatter,
        ParseError,
    >)
        ensures
            frontmatter_outcome(r) == as_field_error(
                frontmatter_of(entries_view(entries@), source@),
            ),
    {
        let title = match read_text(entries, "title") {
            Some(t) => t,
            None => {
                return Err(ParseError::Field(copy_str("title")));
            },
        };
        let date = match read_text(entries, "date") {
            Some(t) => t,
            None => {
                return Err(ParseError::Field(copy_str("date")));
            },
        };
        let author = match read_text(entries, "author") {
            Some(t) => t,
            None => {
                return Err(ParseError::Field(copy_str("author")));
            },
        };
        let tags = match read_list(entries, "tags") {
            Some(t) => t,
            None => {
                return Err(ParseError::Field(copy_str("tags")));
            },
        };
        let description = match read_text(entries, "description") {
            Some(t) => t,
            None => {
                return Err(ParseError::Field(copy_str("description")));
            },
        };
        let time = match read_text(entries, "time") {
            Some(t) => t,
            None => {
                return Err(ParseError::Field(copy_str("time")));
            },
        };
        let extra = read_extra(entries);
        Ok(
            Frontmatter {
                title,
                date,
                author,
                tags,
                description,
                time,
                extra,
                source: copy_str(source),
            },
        )
    }
}

/// How a text divides into metadata and body.
#[derive(Debug)]
pub enum Split {
    /// The first line of the text is not the mark: all of it is body.
    Plain,
    /// The first line is the mark and no later line is.
    Unclosed,
    /// The lines between the first line and the next line that is the mark,
    /// and what follows that line without the white space at its start.
    Block { meta: String, body: String },
}

/// A `Split` with its texts as sequences of characters.
pub enum SplitModel {
    Plain,
    Unclosed,
    Block { meta: Seq<char>, body: Seq<char> },
}

impl View for Split {
    type V = SplitModel;

    open spec fn view(&self) -> SplitModel {
        match self {
            Split::Plain => SplitModel::Plain,
            Split::Unclosed => SplitModel::Unclosed,
            Split::Block { meta, body } => SplitModel::Block { meta: meta@, body: body@ },
        }
    }
}

/// A line ends at `p`: the text ends there, or a line feed stands there.
pub open spec fn ends_line(s: Seq<char>, p: int) -> bool {
    p == s.len() || (0 <= p < s.len() && s[p] == '\n')
}

/// A line begins at `p`: the text begins there, or a line feed stands before.
pub open spec fn begins_line(s: Seq<char>, p: int) -> bool {
    p == 0 || (0 < p <= s.len() && s[p - 1] == '\n')
}

/// The line that begins at `p` is the mark: three dashes and nothing else,
/// but for a carriage return before the line feed.
pub open spec fn is_mark_line(s: Seq<char>, p: int) -> bool {
    &&& begins_line(s, p)
    &&& p + 3 <= s.len()
    &&& s[p] == '-' && s[p + 1] == '-' && s[p + 2] == '-'
    &&& ends_line(s, p + 3) || (p + 3 < s.len() && s[p + 3] == '\r' && ends_line(s, p + 4))
}

/// Where the mark line that begins at `p` ends: at its line feed, or at the
/// end of the text.
pub open spec fn mark_end(s: Seq<char>, p: int) -> int {
    if ends_line(s, p + 3) {
        p + 3
    } else {
        p + 4
    }
}

/// Where the first mark line at or after `from` begins.
pub open spec fn next_mark_line(s: Seq<char>, from: int) -> Option<int>
    decreases s.len() - from,
{
    if from < 0 || from >= s.len() {
        None
    } else if is_mark_line(s, from) {
        Some(from)
    } else {
        next_mark_line(s, from + 1)
    }
}

/// How `content` divides. The block opens only where the first line is the
/// mark, and closes with the first later line that is the mark. The metadata
/// is the lines between the two; the body is what follows the closing line,
/// without the white space at its start.
pub open spec fn split_of(content: Seq<char>) -> SplitModel {
    if !is_mark_line(content, 0) {
        SplitModel::Plain
    } else {
        let opened = mark_end(content, 0);
        match next_mark_line(content, opened) {
            None => SplitModel::Unclosed,
            Some(k) => SplitModel::Block {
                meta: content.subrange(opened + 1, k),
                body: trim_start(content.skip(mark_end(content, k))),
            },
        }
    }
}

/// Where the mark line that begins at `p` ends, if the line that begins at
/// `p` is the mark.
fn mark_line_at(chars: &Vec<char>, p: usize) -> (r: Option<usize>)
    requires
        p <= chars.len(),
    ensures
        match r {
            Some(end) => is_mark_line(chars@, p as int) && end == mark_end(chars@, p as int)
                && p + 3 <= end <= chars.len(),
            None => !is_mark_line(chars@, p as int),
        },
{
    let n = chars.len();
    if p > 0 && chars[p - 1] != '\n' {
        return None;
    }
    if n - p < 3 || chars[p] != '-' || chars[p + 1] != '-' || chars[p + 2] != '-' {
        return None;
    }
    if p + 3 == n || chars[p + 3] == '\n' {
        return Some(p + 3);
    }
    if chars[p + 3] == '\r' && (p + 4 == n || chars[p + 4] == '\n') {
        return Some(p + 4);
    }
    None
}

/// Divides `content` into metadata and body.
pub fn split_frontmatter(content: &str) -> (r: Split)
    ensures
        r@ == split_of(content@),
{
    let chars = chars_of(content);
    let opened = match mark_line_at(&chars, 0) {
        None => {
            return Split::Plain;
        },
        Some(end) => end,
    };
    let mut p: usize = opened;
    while p < chars.len()
        invariant
            opened <= p <= chars.len(),
            chars@ == content@,
            is_mark_line(chars@, 0),
            opened == mark_end(chars@, 0),
            next_mark_line(chars@, opened as int) == next_mark_line(chars@, p as int),
        decreases chars.len() - p,
    {
        match mark_line_at(&chars, p) {
            Some(end) => {
                assert(p > opened) by {
                    if p == opened {
                        assert(chars@[p as int] == '\n');
                    }
                }
                assert(next_mark_line(chars@, opened as int) == Some(p as int));
                let meta = string_of_range(&chars, opened + 1, p);
                let start = skip_spaces(&chars, end);
                let body = string_of_range(&chars, start, chars.len());
                assert(chars@.subrange(start as int, chars.len() as int) =~= chars@.skip(
                    start as int,
                ));
                return Split::Block { meta, body };
            },
            None => {},
        }
        p += 1;
    }
    Split::Unclosed
}

/// One step of a markdown body as its reader walks through it, as far as
/// this library tells steps apart.
#[derive(Debug)]
pub enum MarkdownEvent {
    /// A heading of the given level (1 to 6) begins.
    HeadingStart(usize),
    /// A heading of the given level ends.
    HeadingEnd(usize),
    /// Plain text.
    Text(String),
    /// A code span, with its text.
    Code(String),
    /// Any other step.
    Other,
}

/// A `MarkdownEvent` with its text as a sequence of characters.
pub enum EventModel {
    HeadingStart(usize),
    HeadingEnd(usize),
    Text(Seq<char>),
    Code(Seq<char>),
    Other,
}

impl View for MarkdownEvent {
    type V = EventModel;

    open spec fn view(&self) -> EventModel {
        match self {
            MarkdownEvent::HeadingStart(l) => EventModel::HeadingStart(*l),
            MarkdownEvent::HeadingEnd(l) => EventModel::HeadingEnd(*l),
            MarkdownEvent::Text(t) => EventModel::Text(t@),
            MarkdownEvent::Code(t) => EventModel::Code(t@),
            MarkdownEvent::Other => EventModel::Other,
        }
    }
}

/// The models of a list of events.
pub open spec fn events_view(events: Seq<MarkdownEvent>) -> Seq<EventModel> {
    events.map_values(|e: MarkdownEvent| e@)
}

/// The steps that `pulldown_cmark`'s reader takes through a body.
pub uninterp spec fn markdown_events_of(body: Seq<char>) -> Seq<EventModel>;

/// The HTML that `pulldown_cmark` writes for a body.
pub uninterp spec fn markdown_html_of(body: Seq<char>) -> Seq<char>;

/// Walks through `body` with `pulldown_cmark::Parser::new`, without any of
/// its options, and hands out each step by its kind. The reader decides what
/// the steps are; the contract only gives them a name, the same for the same
/// body.
#[verifier::external_body]
fn markdown_events(body: &str) -> (events: Vec<MarkdownEvent>)
    ensures
        events_view(events@) == markdown_events_of(body@),
{
    pulldown_cmark::Parser::new(body).map(|event| match event {
        pulldown_cmark::Event::Start(pulldown_cmark::Tag::Heading { level, .. }) =>
            MarkdownEvent::HeadingStart(level as usize),
        pulldown_cmark::Event::End(pulldown_cmark::TagEnd::Heading(level)) =>
            MarkdownEvent::HeadingEnd(level as usize),
        pulldown_cmark::Event::Text(t) => MarkdownEvent::Text(t.into_string()),
        pulldown_cmark::Event::Code(t) => MarkdownEvent::Code(t.into_string()),
        _ => MarkdownEvent::Other,
    }).collect()
}

/// Turns `body` into HTML with `pulldown_cmark::html::push_html`, fed by
/// `pulldown_cmark::Parser::new` without any of its options. The contract
/// only gives the HTML a name, the same for the same body.
#[verifier::external_body]
fn markdown_html(body: &str) -> (html: String)
    ensures
        html@ == markdown_html_of(body@),
{
    let mut html = String::new();
    pulldown_cmark::html::push_html(&mut html, pulldown_cmark::Parser::new(body));
    html
}

/// The day, as year, month and day with dashes between, on which the instant
/// that `text` names in the form of RFC 3339 falls in universal time; `None`
/// where `text` names none.
pub uninterp spec fn rfc3339_day_of(text: Seq<char>) -> Option<Seq<char>>;

/// The day that `text` names as year, month and day with dashes between,
/// written out again in that form; `None` where `text` names none.
pub uninterp spec fn calendar_day_of(text: Seq<char>) -> Option<Seq<char>>;

/// Reads `text` with `chrono::DateTime::parse_from_rfc3339` and writes the
/// day of the instant, in universal time, with the format `%Y-%m-%d`. The
/// contract only gives the outcome a name, the same for the same text.
#[verifier::external_body]
fn rfc3339_day(text: &str) -> (day: Option<String>)
    ensures
        opt_view(day) == rfc3339_day_of(text@),
{
    chrono::DateTime::parse_from_rfc3339(text).ok().map(
        |t| t.naive_utc().format("%Y-%m-%d").to_string(),
    )
}

/// Reads `text` with `chrono::NaiveDate::parse_from_str` and the format
/// `%Y-%m-%d`, and writes the day with the same format. The contract only
/// gives the outcome a name, the same for the same text.
#[verifier::external_body]
fn calendar_day(text: &str) -> (day: Option<String>)
    ensures
        opt_view(day) == calendar_day_of(text@),
{
    chrono::NaiveDate::parse_from_str(text, "%Y-%m-%d").ok().map(
        |d| d.format("%Y-%m-%d").to_string(),
    )
}

/// The text of `events` up to the end of the heading that they are in: what
/// the plain texts and the code spans hold, in their order.
pub open spec fn text_until_end(events: Seq<EventModel>) -> Seq<char>
    decreases events.len(),
{
    if events.len() == 0 {
        Seq::empty()
    } else {
        match events[0] {
            EventModel::HeadingEnd(_) => Seq::empty(),
            EventModel::Text(t) => t + text_until_end(events.skip(1)),
            EventModel::Code(t) => t + text_until_end(events.skip(1)),
            _ => text_until_end(events.skip(1)),
        }
    }
}

/// The text of the first heading of level 1 among `events`.
pub open spec fn heading_text(events: Seq<EventModel>) -> Option<Seq<char>>
    decreases events.len(),
{
    if events.len() == 0 {
        None
    } else if events[0] == EventModel::HeadingStart(1) {
        Some(text_until_end(events.skip(1)))
    } else {
        heading_text(events.skip(1))
    }
}

/// The text of the first heading of level 1 among `events`.
pub fn first_heading(events: &Vec<MarkdownEvent>) -> (r: Option<String>)
    ensures
        opt_view(r) == heading_text(events_view(events@)),
{
    let ghost all = events_view(events@);
    let mut i: usize = 0;
    assert(all.skip(0) =~= all);
    while i < events.len()
        invariant
            i <= events.len(),
            all == events_view(events@),
            heading_text(all) == heading_text(all.skip(i as int)),
        decreases events.len() - i,
    {
        assert(all.skip(i as int)[0] == events@[i as int]@);
        assert(all.skip(i as int).skip(1) =~= all.skip(i + 1));
        let opens: bool = match &events[i] {
            MarkdownEvent::HeadingStart(level) => *level == 1,
            _ => false,
        };
        if opens {
            let ghost start = i + 1;
            let mut text: Vec<char> = Vec::new();
            let mut j: usize = i + 1;
            assert(text@ + text_until_end(all.skip(j as int)) =~= text_until_end(
                all.skip(start),
            ));
            while j < events.len()
                invariant
                    j <= events.len(),
                    all == events_view(events@),
                    heading_text(all) == Some(text_until_end(all.skip(start))),
                    text@ + text_until_end(all.skip(j as int)) == text_until_end(all.skip(start)),
                decreases events.len() - j,
            {
                let ghost before = text@;
                assert(all.skip(j as int)[0] == events@[j as int]@);
                assert(all.skip(j as int).skip(1) =~= all.skip(j + 1));
                match &events[j] {
                    MarkdownEvent::HeadingEnd(_) => {
                        assert(text@ + Seq::<char>::empty() =~= text@);
                        return Some(crate::text::string_of(&text));
                    },
                    MarkdownEvent::Text(t) => {
                        crate::text::push_str(&mut text, t.as_str());
                        assert(before + (t@ + text_until_end(all.skip(j + 1))) =~= text@
                            + text_until_end(all.skip(j + 1)));
                    },
                    MarkdownEvent::Code(t) => {
                        crate::text::push_str(&mut text, t.as_str());
                        assert(before + (t@ + text_until_end(all.skip(j + 1))) =~= text@
                            + text_until_end(all.skip(j + 1)));
                    },
                    _ => {},
                }
                j += 1;
            }
            assert(text@ + Seq::<char>::empty() =~= text@);
            return Some(crate::text::string_of(&text));
        }
        i += 1;
    }
    None
}

/// The title of a document: the one that its metadata declares; else the text
/// of its first heading of level 1; else the first line of its body; else
/// "Untitled".
pub open spec fn chosen_title(
    declared: Option<Seq<char>>,
    events: Seq<EventModel>,
    body: Seq<char>,
) -> Seq<char> {
    match declared {
        Some(t) => t,
        None => match heading_text(events) {
            Some(h) => h,
            None => match first_line(body) {
                Some(l) => l,
                None => "Untitled"@,
            },
        },
    }
}

/// The title of a document with the declared title, the steps of its body
/// and the body itself.
pub fn choose_title(declared: &Option<String>, events: &Vec<MarkdownEvent>, body: &str) -> (title:
    String)
    ensures
        title@ == chosen_title(opt_view(*declared), events_view(events@), body@),
{
    match declared {
        Some(t) => t.clone(),
        None => match first_heading(events) {
            Some(h) => h,
            None => match first_line_of(body) {
                Some(l) => l,
                None => copy_str("Untitled"),
            },
        },
    }
}

/// The day of a document: from the first of the two readings of its date
/// text that gives one, the RFC 3339 reading before the plain one.
pub fn choose_day(rfc3339: Option<String>, plain: Option<String>) -> (day: Option<String>)
    ensures
        opt_view(day) == match opt_view(rfc3339) {
            Some(d) => Some(d),
            None => opt_view(plain),
        },
{
    match rfc3339 {
        Some(d) => Some(d),
        None => plain,
    }
}

/// A document after parsing.
#[derive(Debug)]
pub struct ParsedMarkdown {
    pub frontmatter: Frontmatter,
    /// The body as HTML.
    pub html_content: String,
    /// The body as it was written.
    pub raw_content: String,
}

/// A `ParsedMarkdown` with its texts as sequences of characters.
pub struct ParsedModel {
    pub frontmatter: FrontmatterModel,
    pub html_content: Seq<char>,
    pub raw_content: Seq<char>,
}

impl View for ParsedMarkdown {
    type V = ParsedModel;

    open spec fn view(&self) -> ParsedModel {
        ParsedModel {
            frontmatter: self.frontmatter@,
            html_content: self.html_content@,
            raw_content: self.raw_content@,
        }
    }
}

/// The title of a parsed document.
pub open spec fn title_of(doc: ParsedModel) -> Seq<char> {
    chosen_title(doc.frontmatter.title, markdown_events_of(doc.raw_content), doc.raw_content)
}

/// The text that dates a document: under `time`, else under `date`.
pub open spec fn date_text_of(f: FrontmatterModel) -> Option<Seq<char>> {
    match f.time {
        Some(t) => Some(t),
        None => f.date,
    }
}

/// The day of a parsed document, where its metadata dates it and the text
/// reads as a date.
pub open spec fn day_of(doc: ParsedModel) -> Option<Seq<char>> {
    match date_text_of(doc.frontmatter) {
        None => None,
        Some(text) => match rfc3339_day_of(text) {
            Some(d) => Some(d),
            None => calendar_day_of(text),
        },
    }
}

impl ParsedMarkdown {
    /// The title: the declared one, whatever the body says; else the first
    /// heading of level 1; else the first line; else "Untitled".
    pub fn get_title(&self) -> (title: String)
        ensures
            title@ == title_of(self@),
            self@.frontmatter.title matches Some(t) ==> title@ == t,
    {
        match &self.frontmatter.title {
            Some(t) => t.clone(),
            None => {
                let events = markdown_events(self.raw_content.as_str());
                choose_title(&self.frontmatter.title, &events, self.raw_content.as_str())
            },
        }
    }

    /// The day, as year, month and day with dashes between: read from `time`,
    /// else from `date`, as RFC 3339 first and as a plain date second. A text
    /// that reads as neither gives no day.
    pub fn get_date(&self) -> (day: Option<String>)
        ensures
            opt_view(day) == day_of(self@),
    {
        let text: &String = match &self.frontmatter.time {
            Some(t) => t,
            None => match &self.frontmatter.date {
                Some(d) => d,
                None => {
                    return None;
                },
            },
        };
        let first = rfc3339_day(text.as_str());
        if first.is_some() {
            return choose_day(first, None);
        }
        let second = calendar_day(text.as_str());
        choose_day(first, second)
    }
}

/// What parsing makes of the metadata of `content` and what it leaves as the
/// body.
pub open spec fn frontmatter_parse_of(content: Seq<char>) -> Result<
    (FrontmatterModel, Seq<char>),
    ParseErrorModel,
> {
    match split_of(content) {
        SplitModel::Plain => Ok((no_metadata(), content)),
        SplitModel::Unclosed => Err(ParseErrorModel::UnclosedFrontmatter),
        SplitModel::Block { meta, body } => match yaml_entries_of(meta) {
            Err(m) => Err(ParseErrorModel::Metadata(m)),
            Ok(entries) => match frontmatter_of(entries, meta) {
                Err(k) => Err(ParseErrorModel::Field(k)),
                Ok(f) => Ok((f, body)),
            },
        },
    }
}

/// What parsing makes of `content`.
pub open spec fn parse_of(content: Seq<char>) -> Result<ParsedModel, ParseErrorModel> {
    match frontmatter_parse_of(content) {
        Err(e) => Err(e),
        Ok((f, body)) => Ok(
            ParsedModel { frontmatter: f, html_content: markdown_html_of(body), raw_content: body },
        ),
    }
}

/// The view of a metadata with its body, or of the error.
pub open spec fn frontmatter_parse_outcome(r: Result<(Frontmatter, String), ParseError>) -> Result<
    (FrontmatterModel, Seq<char>),
    ParseErrorModel,
> {
    match r {
        Ok((f, body)) => Ok((f@, body@)),
        Err(e) => Err(e@),
    }
}

/// The view of a parsed document, or of the error.
pub open spec fn parse_outcome(r: Result<ParsedMarkdown, ParseError>) -> Result<
    ParsedModel,
    ParseErrorModel,
> {
    match r {
        Ok(doc) => Ok(doc@),
        Err(e) => Err(e@),
    }
}

/// Reads the metadata of `content` and hands it out with the body. A text
/// whose first line is not the mark has no metadata and is all body. One
/// whose first line is the mark and that has no later line that is the mark
/// is refused, and so is one whose block is no YAML mapping or holds a known
/// key with a value of the wrong kind.
pub fn parse_frontmatter(content: &str) -> (r: Result<(Frontmatter, String), ParseError>)
    ensures
        frontmatter_parse_outcome(r) == frontmatter_parse_of(content@),
{
    match split_frontmatter(content) {
        Split::Plain => Ok((Frontmatter::empty(), copy_str(content))),
        Split::Unclosed => Err(ParseError::UnclosedFrontmatter),
        Split::Block { meta, body } => match yaml_entries(meta.as_str()) {
            Err(m) => Err(ParseError::Metadata(m)),
            Ok(entries) => match Frontmatter::from_entries(&entries, meta.as_str()) {
                Err(e) => Err(e),
                Ok(f) => Ok((f, body)),
            },
        },
    }
}

/// Parses a document: its metadata, and its body as HTML.
pub fn parse_markdown(content: &str) -> (r: Result<ParsedMarkdown, ParseError>)
    ensures
        parse_outcome(r) == parse_of(content@),
{
    match parse_frontmatter(content) {
        Err(e) => Err(e),
        Ok((frontmatter, body)) => {
            let html_content = markdown_html(body.as_str());
            Ok(ParsedMarkdown { frontmatter, html_content, raw_content: body })
        },
    }
}

/// `html` with `./attachment/` replaced by `base_path`, a slash and
/// `attachment/`, wherever it stands.
pub fn process_image_links(html: &str, base_path: &str) -> (out: String)
    ensures
        out@ == replace_all(html@, "./attachment/"@, base_path@ + "/attachment/"@),
{
    let to = crate::text::join2(base_path, "/attachment/");
    str_replace(html, "./attachment/", to.as_str())
}

/// An attachment's name as its author wrote it, and the name it was given.
#[derive(Debug)]
pub struct LinkPair {
    pub original: String,
    pub replacement: String,
}

/// A `LinkPair` with its names as sequences of characters.
pub struct LinkModel {
    pub original: Seq<char>,
    pub replacement: Seq<char>,
}

/// The number of bytes that `name` takes in UTF-8.
pub open spec fn byte_len(name: Seq<char>) -> usize {
    vstd::utf8::encode_utf8(name).len() as usize
}

impl Rank for LinkModel {
    /// Pairs with longer original names go first.
    open spec fn precedes(&self, other: &Self) -> bool {
        byte_len(self.original) >= byte_len(other.original)
    }

    proof fn lemma_total(a: &Self, b: &Self) {
    }

    proof fn lemma_transitive(a: &Self, b: &Self, c: &Self) {
    }
}

impl Sortable for LinkPair {
    type Model = LinkModel;

    open spec fn model(&self) -> LinkModel {
        LinkModel { original: self.original@, replacement: self.replacement@ }
    }

    fn goes_before(&self, other: &Self) -> (r: bool) {
        self.original.as_str().len() >= other.original.as_str().len()
    }
}

/// `html` with the references to one attachment rewritten: first those
/// written `./attachment/` and the original name, then those written
/// `attachment/` and the original name, both to `attachment/` and the new
/// name.
pub open spec fn rewrite_one(html: Seq<char>, link: LinkModel) -> Seq<char> {
    replace_all(
        replace_all(
            html,
            "./attachment/"@ + link.original,
            "attachment/"@ + link.replacement,
        ),
        "attachment/"@ + link.original,
        "attachment/"@ + link.replacement,
    )
}

/// `html` with the references to each attachment of `links` rewritten, in
/// the order of the list.
pub open spec fn rewrite_in_order(html: Seq<char>, links: Seq<LinkModel>) -> Seq<char>
    decreases links.len(),
{
    if links.len() == 0 {
        html
    } else {
        rewrite_in_order(rewrite_one(html, links[0]), links.skip(1))
    }
}

/// `html` with the references to each attachment rewritten, those with the
/// longest original names first, so that no name is taken for a part of a
/// longer one.
pub open spec fn rewrite_links(html: Seq<char>, links: Seq<LinkModel>) -> Seq<char> {
    rewrite_in_order(html, ranked(links))
}

/// The order in which references are rewritten: every pair of the map has its
/// turn, as often as it stands in the map, and no pair comes before one with
/// a longer original name.
pub proof fn lemma_longest_first(links: Seq<LinkModel>)
    ensures
        ranked(links).len() == links.len(),
        ranked(links).to_multiset() == links.to_multiset(),
        forall|i: int, j: int|
            #![trigger ranked(links)[i], ranked(links)[j]]
            0 <= i < j < links.len() ==> byte_len(ranked(links)[i].original) >= byte_len(
                ranked(links)[j].original,
            ),
{
    crate::order::lemma_ranked_in_order(links);
    crate::order::lemma_ranked_same_elements(links);
}

/// Where no reference to an attachment of the map stands in `html`, rewriting
/// changes nothing.
pub proof fn lemma_rewrite_without_references(html: Seq<char>, links: Seq<LinkModel>)
    requires
        forall|k: int|
            0 <= k < links.len() ==> !crate::text::contains_text(
                html,
                "attachment/"@ + (#[trigger] links[k]).original,
            ),
    ensures
        rewrite_links(html, links) == html,
{
    let order = ranked(links);
    crate::order::lemma_ranked_same_elements(links);
    assert forall|k: int| 0 <= k < order.len() implies !crate::text::contains_text(
        html,
        "attachment/"@ + (#[trigger] order[k]).original,
    ) by {
        assert(order.contains(order[k]));
        assert(links.contains(order[k]));
        let m = choose|m: int| 0 <= m < links.len() && links[m] == order[k];
        assert(!crate::text::contains_text(html, "attachment/"@ + links[m].original));
    }
    lemma_rewrite_in_order_without_references(html, order);
}

/// Where no reference to an attachment of the list stands in `html`,
/// rewriting in the order of the list changes nothing.
proof fn lemma_rewrite_in_order_without_references(html: Seq<char>, links: Seq<LinkModel>)
    requires
        forall|k: int|
            0 <= k < links.len() ==> !crate::text::contains_text(
                html,
                "attachment/"@ + (#[trigger] links[k]).original,
            ),
    ensures
        rewrite_in_order(html, links) == html,
    decreases links.len(),
{
    if links.len() > 0 {
        let plain = "attachment/"@ + links[0].original;
        let dotted = "./attachment/"@ + links[0].original;
        let to = "attachment/"@ + links[0].replacement;
        assert(!crate::text::contains_text(html, plain));
        assert(!crate::text::contains_text(html, dotted)) by {
            if crate::text::contains_text(html, dotted) {
                let i = choose|i: int| crate::text::occurs_at(html, dotted, i);
                reveal_strlit("./attachment/");
                reveal_strlit("attachment/");
                assert(dotted.subrange(2, dotted.len() as int) =~= plain);
                assert(html.subrange(i + 2, i + 2 + plain.len()) =~= html.subrange(
                    i,
                    i + dotted.len(),
                ).subrange(2, dotted.len() as int));
                assert(crate::text::occurs_at(html, plain, i + 2));
            }
        }
        crate::text::lemma_replace_absent(html, dotted, to);
        crate::text::lemma_replace_absent(html, plain, to);
        let rest = links.skip(1);
        assert forall|k: int| 0 <= k < rest.len() implies !crate::text::contains_text(
            html,
            "attachment/"@ + (#[trigger] rest[k]).original,
        ) by {
            assert(rest[k] == links[k + 1]);
        }
        lemma_rewrite_in_order_without_references(html, rest);
    }
}

/// Where a reference to an attachment stands in `html`, a reference to its
/// new name stands in the HTML after the references to it were rewritten.
pub proof fn lemma_rewrite_one_brings(html: Seq<char>, link: LinkModel)
    requires
        crate::text::contains_text(html, "attachment/"@ + link.original),
    ensures
        crate::text::contains_text(rewrite_one(html, link), "attachment/"@ + link.replacement),
{
    let plain = "attachment/"@ + link.original;
    let dotted = "./attachment/"@ + link.original;
    let to = "attachment/"@ + link.replacement;
    let first = replace_all(html, dotted, to);
    reveal_strlit("./attachment/");
    reveal_strlit("attachment/");
    assert(plain.len() > 0 && dotted.len() > 0);
    if crate::text::contains_text(first, plain) {
        crate::text::lemma_replace_present(first, plain, to);
    } else {
        if crate::text::contains_text(html, dotted) {
            crate::text::lemma_replace_present(html, dotted, to);
        } else {
            crate::text::lemma_replace_absent(html, dotted, to);
        }
        crate::text::lemma_replace_absent(first, plain, to);
    }
}

/// Where the reference to an attachment and the reference to its new name
/// stand apart, no reference to the attachment is left in the HTML after the
/// references to it were rewritten.
pub proof fn lemma_rewrite_one_clears(html: Seq<char>, link: LinkModel)
    requires
        crate::text::apart("attachment/"@ + link.original, "attachment/"@ + link.replacement),
    ensures
        !crate::text::contains_text(rewrite_one(html, link), "attachment/"@ + link.original),
{
    crate::text::lemma_replace_clears(
        replace_all(html, "./attachment/"@ + link.original, "attachment/"@ + link.replacement),
        "attachment/"@ + link.original,
        "attachment/"@ + link.replacement,
    );
}

/// Rewriting with a map of one pair rewrites the references to that pair.
pub proof fn lemma_rewrite_single(html: Seq<char>, link: LinkModel)
    ensures
        rewrite_links(html, seq![link]) == rewrite_one(html, link),
{
    let links = seq![link];
    assert(links.skip(1) =~= Seq::<LinkModel>::empty());
    assert(ranked(links.skip(1)) =~= Seq::<LinkModel>::empty());
    assert(ranked(links) =~= links);
    assert(rewrite_in_order(rewrite_one(html, link), links.skip(1)) == rewrite_one(html, link));
}

/// The pairs of a map of attachment names.
pub open spec fn link_models(map: Seq<(String, String)>) -> Seq<LinkModel> {
    map.map_values(|p: (String, String)| LinkModel { original: p.0@, replacement: p.1@ })
}

/// `html` with the references to one attachment rewritten.
pub fn rewrite_link(html: &str, original: &str, replacement: &str) -> (out: String)
    ensures
        out@ == rewrite_one(html@, LinkModel { original: original@, replacement: replacement@ }),
{
    let to = crate::text::join2("attachment/", replacement);
    let dotted = crate::text::join2("./attachment/", original);
    let plain = crate::text::join2("attachment/", original);
    let first = str_replace(html, dotted.as_str(), to.as_str());
    str_replace(first.as_str(), plain.as_str(), to.as_str())
}

/// Rewrites the references to attachments in `html`. Each pair of
/// `attachment_map` gives an original name and the new one; `./attachment/`
/// or `attachment/` before an original name becomes `attachment/` before the
/// new name. Longer original names are dealt with first.
pub fn replace_attachment_links(html: &str, attachment_map: &[(String, String)]) -> (out: String)
    ensures
        out@ == rewrite_links(html@, link_models(attachment_map@)),
{
    let mut pairs: Vec<LinkPair> = Vec::new();
    let mut i: usize = 0;
    while i < attachment_map.len()
        invariant
            i <= attachment_map.len(),
            pairs.len() == i,
            forall|j: int|
                0 <= j < i ==> (#[trigger] pairs@[j]).model() == link_models(attachment_map@)[j],
        decreases attachment_map.len() - i,
    {
        pairs.push(
            LinkPair {
                original: attachment_map[i].0.clone(),
                replacement: attachment_map[i].1.clone(),
            },
        );
        i += 1;
    }
    assert(crate::order::models(pairs@) =~= link_models(attachment_map@));
    let sorted = sort_ranked(pairs);
    let ghost order = crate::order::models(sorted@);
    let mut result = copy_str(html);
    let mut k: usize = 0;
    assert(order.skip(0) =~= order);
    while k < sorted.len()
        invariant
            k <= sorted.len(),
            order == crate::order::models(sorted@),
            rewrite_in_order(result@, order.skip(k as int)) == rewrite_in_order(html@, order),
        decreases sorted.len() - k,
    {
        assert(order.skip(k as int)[0] == sorted@[k as int].model());
        assert(order.skip(k as int).skip(1) =~= order.skip(k + 1));
        result = rewrite_link(
            result.as_str(),
            sorted[k].original.as_str(),
            sorted[k].replacement.as_str(),
        );
        k += 1;
    }
    result
}

} // verus!
