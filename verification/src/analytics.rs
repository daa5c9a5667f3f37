//! Visits: where a visitor came from and what they came with.

use crate::text::{
    chars_of, contains_chars, contains_text, copy_str, lowercase, lowercase_of, str_eq,
};
use vstd::prelude::*;

verus! {

/// Where a visit came from.
#[derive(Clone, Copy, Debug, PartialEq, Eq, Structural)]
pub enum VisitSource {
    /// The visitor typed the address or followed a bookmark.
    Direct,
    /// A search engine sent the visitor.
    SearchEngine,
    /// A social network sent the visitor.
    SocialMedia,
    /// Another site sent the visitor.
    ExternalLink,
    /// Nothing is known.
    Unknown,
}

/// The name of a source in stored rows.
pub open spec fn source_name(s: VisitSource) -> Seq<char> {
    match s {
        VisitSource::Direct => "direct"@,
        VisitSource::SearchEngine => "search"@,
        VisitSource::SocialMedia => "social"@,
        VisitSource::ExternalLink => "external"@,
        VisitSource::Unknown => "unknown"@,
    }
}

/// The source that a name in a stored row stands for; a name that is none of
/// the four known ones stands for an unknown source.
pub open spec fn source_named(name: Seq<char>) -> VisitSource {
    if name == "direct"@ {
        VisitSource::Direct
    } else if name == "search"@ {
        VisitSource::SearchEngine
    } else if name == "social"@ {
        VisitSource::SocialMedia
    } else if name == "external"@ {
        VisitSource::ExternalLink
    } else {
        VisitSource::Unknown
    }
}

impl Default for VisitSource {
    fn default() -> (s: Self)
        ensures
            s == VisitSource::Unknown,
    {
        VisitSource::Unknown
    }
}

impl VisitSource {
    /// The source that `name` stands for. Every name stands for one.
    pub fn from_str(name: &str) -> (r: Result<VisitSource, ()>)
        ensures
            r == Ok::<VisitSource, ()>(source_named(name@)),
    {
        if str_eq(name, "direct") {
            Ok(VisitSource::Direct)
        } else if str_eq(name, "search") {
            Ok(VisitSource::SearchEngine)
        } else if str_eq(name, "social") {
            Ok(VisitSource::SocialMedia)
        } else if str_eq(name, "external") {
            Ok(VisitSource::ExternalLink)
        } else {
            Ok(VisitSource::Unknown)
        }
    }

    /// The name of this source in stored rows.
    pub fn to_string(&self) -> (name: String)
        ensures
            name@ == source_name(*self),
    {
        match self {
            VisitSource::Direct => copy_str("direct"),
            VisitSource::SearchEngine => copy_str("search"),
            VisitSource::SocialMedia => copy_str("social"),
            VisitSource::ExternalLink => copy_str("external"),
            VisitSource::Unknown => copy_str("unknown"),
        }
    }
}

/// One visit of a page.
#[derive(Debug)]
pub struct VisitRecord {
    pub id: String,
    pub page_slug: String,
    pub ip_address: String,
    pub user_agent: String,
    pub referer: String,
    pub source: VisitSource,
    pub search_engine: Option<String>,
    pub search_keyword: Option<String>,
    pub visit_time: String,
    pub country: Option<String>,
    pub city: Option<String>,
}

/// The visits of one day.
#[derive(Debug)]
pub struct DailyStats {
    pub date: String,
    pub total_visits: i64,
    pub unique_visitors: i64,
    pub page_views: i64,
}

/// A page and how often it was visited.
#[derive(Debug)]
pub struct PopularPage {
    pub slug: String,
    pub title: String,
    pub visits: i64,
}

/// The browser that a user agent in lower case names.
pub open spec fn browser_of_lower(u: Seq<char>) -> Seq<char> {
    if contains_text(u, "chrome"@) && !contains_text(u, "chromium"@) {
        "Chrome"@
    } else if contains_text(u, "firefox"@) {
        "Firefox"@
    } else if contains_text(u, "safari"@) && !contains_text(u, "chrome"@) {
        "Safari"@
    } else if contains_text(u, "edge"@) {
        "Edge"@
    } else if contains_text(u, "opera"@) || contains_text(u, "opr"@) {
        "Opera"@
    } else {
        "Other"@
    }
}

/// The operating system that a user agent in lower case names. A telephone
/// or tablet that says it is like a Mac counts as what it is.
pub open spec fn system_of_lower(u: Seq<char>) -> Seq<char> {
    if contains_text(u, "windows"@) {
        "Windows"@
    } else if contains_text(u, "iphone"@) || contains_text(u, "ipad"@) {
        "iOS"@
    } else if contains_text(u, "mac os"@) || contains_text(u, "macos"@) {
        "macOS"@
    } else if contains_text(u, "android"@) {
        "Android"@
    } else if contains_text(u, "linux"@) {
        "Linux"@
    } else if contains_text(u, "chromeos"@) {
        "ChromeOS"@
    } else {
        "Other"@
    }
}

/// Whether the user agent `ua` holds `word`.
fn holds(ua: &Vec<char>, word: &str) -> (r: bool)
    ensures
        r == contains_text(ua@, word@),
{
    let w = chars_of(word);
    contains_chars(ua, &w)
}

/// The browser and the operating system that a user agent in lower case
/// names.
pub fn parse_lowered_user_agent(lower: &str) -> (r: (String, String))
    ensures
        r.0@ == browser_of_lower(lower@),
        r.1@ == system_of_lower(lower@),
{
    let u = chars_of(lower);
    let browser: &str = if holds(&u, "chrome") && !holds(&u, "chromium") {
        "Chrome"
    } else if holds(&u, "firefox") {
        "Firefox"
    } else if holds(&u, "safari") && !holds(&u, "chrome") {
        "Safari"
    } else if holds(&u, "edge") {
        "Edge"
    } else if holds(&u, "opera") || holds(&u, "opr") {
        "Opera"
    } else {
        "Other"
    };
    let system: &str = if holds(&u, "windows") {
        "Windows"
    } else if holds(&u, "iphone") || holds(&u, "ipad") {
        "iOS"
    } else if holds(&u, "mac os") || holds(&u, "macos") {
        "macOS"
    } else if holds(&u, "android") {
        "Android"
    } else if holds(&u, "linux") {
        "Linux"
    } else if holds(&u, "chromeos") {
        "ChromeOS"
    } else {
        "Other"
    };
    (copy_str(browser), copy_str(system))
}

/// The browser and the operating system that a user agent names, whatever
/// the case of its letters: they are read off its lower-case form.
pub fn parse_user_agent(ua: &str) -> (r: (String, String))
    ensures
        r.0@ == browser_of_lower(lowercase_of(ua@)),
        r.1@ == system_of_lower(lowercase_of(ua@)),
{
    let lower = lowercase(ua);
    parse_lowered_user_agent(lower.as_str())
}

/// The country and the city of an address. No address is looked up: both are
/// unknown.
pub fn get_location_from_ip(ip: &str) -> (r: (Option<String>, Option<String>))
    ensures
        r.0 is None,
        r.1 is None,
{
    (None, None)
}

} // verus!
