//! New content: the slug of a name, and the documents that a new category or
//! a new page starts with.

use crate::text::{chars_of, lowercase, lowercase_of, push_str, string_of};
use vstd::prelude::*;

verus! {

/// Whether a character is a letter or a number, as Unicode defines them.
pub uninterp spec fn is_alphanumeric_char(c: char) -> bool;

/// `char::is_alphanumeric` says whether a character is a letter or a number.
/// The contract only gives the answer a name, the same for the same
/// character.
#[verifier::external_body]
fn alphanumeric(c: char) -> (r: bool)
    ensures
        r == is_alphanumeric_char(c),
{
    c.is_alphanumeric()
}

/// Whether a character may stand in a slug: a letter, a number, a dash or an
/// underscore.
pub open spec fn is_slug_char(c: char) -> bool {
    is_alphanumeric_char(c) || c == '-' || c == '_'
}

/// `is_slug_char` as a filter.
pub open spec fn slug_chars() -> spec_fn(char) -> bool {
    |c: char| is_slug_char(c)
}

/// The slug that is left of a text in lower case: the characters that may
/// stand in a slug, in their order.
pub open spec fn slug_of_lower(lower: Seq<char>) -> Seq<char> {
    lower.filter(slug_chars())
}

/// The slug that is left of a text in lower case.
pub fn slug_from_lower(lower: &str) -> (slug: String)
    ensures
        slug@ == slug_of_lower(lower@),
{
    let all = chars_of(lower);
    let mut out: Vec<char> = Vec::new();
    let mut i: usize = 0;
    proof {
        reveal(Seq::filter);
        assert(all@.take(0) =~= Seq::<char>::empty());
    }
    while i < all.len()
        invariant
            i <= all.len(),
            out@ == all@.take(i as int).filter(slug_chars()),
        decreases all.len() - i,
    {
        let c: char = all[i];
        proof {
            crate::query::lemma_filter_next(all@, slug_chars(), i as int);
        }
        if alphanumeric(c) || c == '-' || c == '_' {
            out.push(c);
        }
        i += 1;
    }
    assert(all@.take(all.len() as int) =~= all@);
    string_of(&out)
}

/// The slug of a name: the name in lower case, without the characters that
/// are neither letters nor numbers nor dashes nor underscores.
pub fn to_slug(name: &str) -> (slug: String)
    ensures
        slug@ == slug_of_lower(lowercase_of(name@)),
{
    let lower = lowercase(name);
    slug_from_lower(lower.as_str())
}

/// The index document that a new category starts with.
pub open spec fn category_document(name: Seq<char>, now: Seq<char>) -> Seq<char> {
    "---\ntitle: "@ + name + "\ndate: "@ + now + "\n---\n\n# "@ + name
        + "\n\n欢迎来到分类页面。\n\n你可以在这里添加分类的介绍内容。\n"@
}

/// The index document that a new category with the name `name` starts with,
/// made at the time `now`.
pub fn new_category_document(name: &str, now: &str) -> (doc: String)
    ensures
        doc@ == category_document(name@, now@),
{
    let mut out = chars_of("---\ntitle: ");
    push_str(&mut out, name);
    push_str(&mut out, "\ndate: ");
    push_str(&mut out, now);
    push_str(&mut out, "\n---\n\n# ");
    push_str(&mut out, name);
    push_str(&mut out, "\n\n欢迎来到分类页面。\n\n你可以在这里添加分类的介绍内容。\n");
    string_of(&out)
}

/// The document that a new page starts with.
pub open spec fn page_document(title: Seq<char>, now: Seq<char>) -> Seq<char> {
    "---\ntitle: "@ + title + "\ndate: "@ + now
        + "\nauthor: \ntags: []\ndescription: \n---\n\n# "@ + title
        + "\n\n在这里开始写你的文章内容...\n\n## 标题2\n\n- 列表项1\n- 列表项2\n\n```rust\nfn main() {\n    println!(\"Hello, World!\");\n}\n```\n"@
}

/// The document that a new page with the title `title` starts with, made at
/// the time `now`.
pub fn new_page_document(title: &str, now: &str) -> (doc: String)
    ensures
        doc@ == page_document(title@, now@),
{
    let mut out = chars_of("---\ntitle: ");
    push_str(&mut out, title);
    push_str(&mut out, "\ndate: ");
    push_str(&mut out, now);
    push_str(&mut out, "\nauthor: \ntags: []\ndescription: \n---\n\n# ");
    push_str(&mut out, title);
    push_str(
        &mut out,
        "\n\n在这里开始写你的文章内容...\n\n## 标题2\n\n- 列表项1\n- 列表项2\n\n```rust\nfn main() {\n    println!(\"Hello, World!\");\n}\n```\n",
    );
    string_of(&out)
}

} // verus!
