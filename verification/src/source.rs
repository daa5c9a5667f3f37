//! What was read off the content directory: files and directories as plain
//! values, and the parts of a file name.

use crate::error::CompileErrorModel;
use crate::text::{chars_of, opt_view, str_eq, string_of, string_of_range};
use vstd::prelude::*;

verus! {

/// One entry of a directory as it was read: a file with what reading it
/// gave, a directory with what listing it gave, or an entry whose name is
/// not Unicode, of which only its kind is known.
#[derive(Debug)]
pub enum Node {
    File { name: String, content: Result<Vec<u8>, String> },
    Dir { name: String, listing: Listing },
    /// An entry whose name is not Unicode: whether it is a directory, and
    /// whether its extension is `md`.
    Nameless { directory: bool, markdown: bool },
}

/// What listing a directory gave: the entries in the order in which they
/// came, and the reason why the listing ended early, if it did.
#[derive(Debug)]
pub struct Listing {
    pub entries: Vec<Node>,
    pub failure: Option<String>,
}

/// The name of an entry, where it has one.
pub open spec fn node_name(n: Node) -> Option<Seq<char>> {
    match n {
        Node::File { name, content } => Some(name@),
        Node::Dir { name, listing } => Some(name@),
        Node::Nameless { directory, markdown } => None,
    }
}

impl Node {
    /// The name of this entry, where it has one.
    pub fn name(&self) -> (r: Option<&String>)
        ensures
            match r {
                Some(name) => node_name(*self) == Some(name@),
                None => node_name(*self) is None,
            },
    {
        match self {
            Node::File { name, content } => Some(name),
            Node::Dir { name, listing } => Some(name),
            Node::Nameless { directory, markdown } => None,
        }
    }
}

/// Whether a name begins with a dot.
pub open spec fn is_hidden(name: Seq<char>) -> bool {
    name.len() > 0 && name[0] == '.'
}

/// Whether a name begins with a dot.
pub fn hidden(name: &str) -> (r: bool)
    ensures
        r == is_hidden(name@),
{
    let v = chars_of(name);
    v.len() > 0 && v[0] == '.'
}

/// The position of the last dot of `name` before `end`, or -1.
pub open spec fn last_dot(name: Seq<char>, end: int) -> int
    decreases end,
{
    if end <= 0 {
        -1
    } else if name[end - 1] == '.' {
        end - 1
    } else {
        last_dot(name, end - 1)
    }
}

/// The extension of a file name: what follows its last dot. A name without a
/// dot has none, and neither has one whose only dot is its first character.
pub open spec fn extension_of(name: Seq<char>) -> Option<Seq<char>> {
    let dot = last_dot(name, name.len() as int);
    if dot <= 0 {
        None
    } else {
        Some(name.skip(dot + 1))
    }
}

/// The stem of a file name: what stands before the dot of its extension, or
/// all of it where it has no extension.
pub open spec fn stem_of(name: Seq<char>) -> Seq<char> {
    let dot = last_dot(name, name.len() as int);
    if dot <= 0 {
        name
    } else {
        name.take(dot)
    }
}

/// The position of the last dot of `name`, if it has one.
fn find_last_dot(name: &Vec<char>) -> (r: Option<usize>)
    ensures
        match r {
            Some(d) => d == last_dot(name@, name.len() as int) && d < name.len(),
            None => last_dot(name@, name.len() as int) == -1,
        },
{
    let mut end: usize = name.len();
    while end > 0
        invariant
            end <= name.len(),
            last_dot(name@, name.len() as int) == last_dot(name@, end as int),
        decreases end,
    {
        if name[end - 1] == '.' {
            return Some(end - 1);
        }
        end -= 1;
    }
    None
}

/// The extension of a file name.
pub fn extension(name: &str) -> (r: Option<String>)
    ensures
        opt_view(r) == extension_of(name@),
{
    let v = chars_of(name);
    match find_last_dot(&v) {
        None => None,
        Some(d) => if d == 0 {
            None
        } else {
            let e = string_of_range(&v, d + 1, v.len());
            assert(v@.subrange(d + 1, v.len() as int) =~= v@.skip(d + 1));
            Some(e)
        },
    }
}

/// The stem of a file name.
pub fn file_stem(name: &str) -> (r: String)
    ensures
        r@ == stem_of(name@),
{
    let v = chars_of(name);
    match find_last_dot(&v) {
        None => string_of(&v),
        Some(d) => if d == 0 {
            string_of(&v)
        } else {
            let e = string_of_range(&v, 0, d);
            assert(v@.subrange(0, d as int) =~= v@.take(d as int));
            e
        },
    }
}

/// What was gathered so far, followed by the outcome of the rest.
pub open spec fn after<X>(head: Seq<X>, rest: Result<Seq<X>, CompileErrorModel>) -> Result<
    Seq<X>,
    CompileErrorModel,
> {
    match rest {
        Ok(r) => Ok(head + r),
        Err(e) => Err(e),
    }
}

/// Goes through `entries` in their order and gathers what `step` makes of
/// each. The first entry at which `step` fails ends the walk with its error.
pub open spec fn gather<X>(
    entries: Seq<Node>,
    step: spec_fn(Node) -> Result<Seq<X>, CompileErrorModel>,
) -> Result<Seq<X>, CompileErrorModel>
    decreases entries.len(),
{
    if entries.len() == 0 {
        Ok(Seq::empty())
    } else {
        match step(entries[0]) {
            Err(e) => Err(e),
            Ok(first) => after(first, gather(entries.skip(1), step)),
        }
    }
}

/// Gathers over the entries of a listing. Where no entry fails and the
/// listing ended early, the reason for that is the error.
pub open spec fn gather_listing<X>(
    listing: Listing,
    step: spec_fn(Node) -> Result<Seq<X>, CompileErrorModel>,
) -> Result<Seq<X>, CompileErrorModel> {
    match gather(listing.entries@, step) {
        Err(e) => Err(e),
        Ok(all) => match listing.failure {
            Some(m) => Err(CompileErrorModel::Io(m@)),
            None => Ok(all),
        },
    }
}

/// One more entry of a walk: with `acc` gathered from the first `i` entries,
/// a failure at entry `i` is the outcome of the walk, and a success adds to
/// what was gathered.
pub proof fn lemma_gather_next<X>(
    all: Seq<Node>,
    step: spec_fn(Node) -> Result<Seq<X>, CompileErrorModel>,
    i: int,
    acc: Seq<X>,
)
    requires
        0 <= i < all.len(),
        gather(all, step) == after(acc, gather(all.skip(i), step)),
    ensures
        match step(all[i]) {
            Err(e) => gather(all, step) == Err::<Seq<X>, CompileErrorModel>(e),
            Ok(first) => gather(all, step) == after(acc + first, gather(all.skip(i + 1), step)),
        },
{
    let rest = all.skip(i);
    assert(rest[0] == all[i]);
    assert(rest.skip(1) =~= all.skip(i + 1));
    match step(all[i]) {
        Err(e) => {},
        Ok(first) => {
            match gather(all.skip(i + 1), step) {
                Err(e) => {},
                Ok(r) => {
                    assert(acc + (first + r) =~= (acc + first) + r);
                },
            }
        },
    }
}

/// The start of a walk: nothing is gathered yet.
pub proof fn lemma_gather_start<X>(
    all: Seq<Node>,
    step: spec_fn(Node) -> Result<Seq<X>, CompileErrorModel>,
)
    ensures
        gather(all, step) == after(Seq::<X>::empty(), gather(all.skip(0), step)),
{
    assert(all.skip(0) =~= all);
    match gather(all, step) {
        Err(e) => {},
        Ok(r) => {
            assert(Seq::<X>::empty() + r =~= r);
        },
    }
}

/// The end of a walk: with `acc` gathered from all entries, `acc` is the
/// outcome.
pub proof fn lemma_gather_done<X>(
    all: Seq<Node>,
    step: spec_fn(Node) -> Result<Seq<X>, CompileErrorModel>,
    acc: Seq<X>,
)
    requires
        gather(all, step) == after(acc, gather(all.skip(all.len() as int), step)),
    ensures
        gather(all, step) == Ok::<Seq<X>, CompileErrorModel>(acc),
{
    assert(all.skip(all.len() as int) =~= Seq::<Node>::empty());
    assert(acc + Seq::<X>::empty() =~= acc);
}

/// Every element of `items` has the property `holds`.
pub open spec fn all_hold<X>(items: Seq<X>, holds: spec_fn(X) -> bool) -> bool {
    forall|k: int| 0 <= k < items.len() ==> holds(#[trigger] items[k])
}

/// Where all that a step makes of any entry has a property, all that a walk
/// gathers has it.
pub proof fn lemma_gather_all<X>(
    entries: Seq<Node>,
    step: spec_fn(Node) -> Result<Seq<X>, CompileErrorModel>,
    holds: spec_fn(X) -> bool,
)
    requires
        forall|n: Node| (#[trigger] step(n)) matches Ok(found) ==> all_hold(found, holds),
    ensures
        gather(entries, step) matches Ok(all) ==> all_hold(all, holds),
    decreases entries.len(),
{
    if entries.len() > 0 {
        lemma_gather_all(entries.skip(1), step, holds);
        match (step(entries[0]), gather(entries.skip(1), step)) {
            (Ok(first), Ok(rest)) => {
                let all = first + rest;
                assert forall|k: int| 0 <= k < all.len() implies holds(#[trigger] all[k]) by {
                    if k < first.len() {
                        assert(all[k] == first[k]);
                    } else {
                        assert(all[k] == rest[k - first.len()]);
                    }
                }
            },
            _ => {},
        }
    }
}

/// The first entry of `entries` with the given name.
pub open spec fn find_node(entries: Seq<Node>, name: Seq<char>) -> Option<Node>
    decreases entries.len(),
{
    if entries.len() == 0 {
        None
    } else if node_name(entries[0]) == Some(name) {
        Some(entries[0])
    } else {
        find_node(entries.skip(1), name)
    }
}

/// The first entry of `entries` with the given name.
pub fn find_entry<'a>(entries: &'a Vec<Node>, name: &str) -> (r: Option<&'a Node>)
    ensures
        match r {
            Some(n) => find_node(entries@, name@) == Some(*n),
            None => find_node(entries@, name@) is None,
        },
{
    let mut i: usize = 0;
    assert(entries@.skip(0) =~= entries@);
    while i < entries.len()
        invariant
            i <= entries.len(),
            find_node(entries@, name@) == find_node(entries@.skip(i as int), name@),
        decreases entries.len() - i,
    {
        assert(entries@.skip(i as int)[0] == entries@[i as int]);
        assert(entries@.skip(i as int).skip(1) =~= entries@.skip(i + 1));
        let found: bool = match entries[i].name() {
            Some(n) => str_eq(n.as_str(), name),
            None => false,
        };
        if found {
            return Some(&entries[i]);
        }
        i += 1;
    }
    None
}

} // verus!
