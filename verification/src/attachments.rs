//! Attachments: the files of an item's `attachment` directory, each under a
//! new name that no other attachment of the item has.

use crate::content::{attachments_view, Attachment, AttachmentModel};
use crate::error::{CompileError, CompileErrorModel};
use crate::source::{
    after, extension, extension_of, gather, gather_listing, hidden, is_hidden, lemma_gather_done,
    lemma_gather_next, lemma_gather_start, Listing, Node,
};
use crate::text::{
    chars_of, copy_bytes, copy_str, decimal, join2, lowercase, lowercase_of, push_decimal,
    push_str, str_eq, string_of,
};
use vstd::prelude::*;

verus! {

/// The MIME type that goes with an extension in lower case;
/// `application/octet-stream` for all that are not known.
pub open spec fn mime_of_lowered(e: Seq<char>) -> Seq<char> {
    if e == "jpg"@ || e == "jpeg"@ {
        "image/jpeg"@
    } else if e == "png"@ {
        "image/png"@
    } else if e == "gif"@ {
        "image/gif"@
    } else if e == "svg"@ {
        "image/svg+xml"@
    } else if e == "webp"@ {
        "image/webp"@
    } else if e == "pdf"@ {
        "application/pdf"@
    } else if e == "zip"@ {
        "application/zip"@
    } else if e == "mp4"@ {
        "video/mp4"@
    } else if e == "mp3"@ {
        "audio/mpeg"@
    } else if e == "txt"@ {
        "text/plain"@
    } else if e == "css"@ {
        "text/css"@
    } else if e == "js"@ {
        "application/javascript"@
    } else if e == "html"@ {
        "text/html"@
    } else {
        "application/octet-stream"@
    }
}

/// The MIME type that goes with an extension, whatever the case of its
/// letters.
pub open spec fn mime_of_extension(extension: Seq<char>) -> Seq<char> {
    mime_of_lowered(lowercase_of(extension))
}

/// The MIME type that goes with an extension, whatever the case of its
/// letters.
pub fn get_mime_type(extension: &str) -> (mime: String)
    ensures
        mime@ == mime_of_extension(extension@),
{
    let lower = lowercase(extension);
    mime_type_of_lowered(lower.as_str())
}

/// The MIME type that goes with an extension in lower case.
pub fn mime_type_of_lowered(e: &str) -> (mime: String)
    ensures
        mime@ == mime_of_lowered(e@),
{
    let mime: &str = if str_eq(e, "jpg") || str_eq(e, "jpeg") {
        "image/jpeg"
    } else if str_eq(e, "png") {
        "image/png"
    } else if str_eq(e, "gif") {
        "image/gif"
    } else if str_eq(e, "svg") {
        "image/svg+xml"
    } else if str_eq(e, "webp") {
        "image/webp"
    } else if str_eq(e, "pdf") {
        "application/pdf"
    } else if str_eq(e, "zip") {
        "application/zip"
    } else if str_eq(e, "mp4") {
        "video/mp4"
    } else if str_eq(e, "mp3") {
        "audio/mpeg"
    } else if str_eq(e, "txt") {
        "text/plain"
    } else if str_eq(e, "css") {
        "text/css"
    } else if str_eq(e, "js") {
        "application/javascript"
    } else if str_eq(e, "html") {
        "text/html"
    } else {
        "application/octet-stream"
    };
    copy_str(mime)
}

/// The name that the `counter`-th attachment of an item gets: the name of
/// the item's directory, an underscore, the counter, a dot, the extension.
pub open spec fn attachment_name(dir_name: Seq<char>, counter: nat, extension: Seq<char>) -> Seq<
    char,
> {
    dir_name + seq!['_'] + decimal(counter) + seq!['.'] + extension
}

/// The attachment that the `counter`-th file of an item's attachment
/// directory becomes.
pub open spec fn attachment_of(
    dir_name: Seq<char>,
    counter: nat,
    name: Seq<char>,
    data: Seq<u8>,
) -> AttachmentModel {
    let extension = match extension_of(name) {
        Some(e) => e,
        None => Seq::empty(),
    };
    let new_name = attachment_name(dir_name, counter, extension);
    AttachmentModel {
        original_name: name,
        new_name: new_name,
        file_type: extension,
        path: "attachment/"@ + new_name,
        file_data: data,
        file_size: data.len() as usize,
        mime_type: mime_of_extension(extension),
    }
}

/// Makes the attachment that the `counter`-th file of an item's attachment
/// directory becomes.
pub fn make_attachment(dir_name: &str, counter: usize, name: &str, data: &Vec<u8>) -> (a:
    Attachment)
    ensures
        a@ == attachment_of(dir_name@, counter as nat, name@, data@),
{
    let file_type = match extension(name) {
        Some(e) => e,
        None => String::new(),
    };
    let mut chars = chars_of(dir_name);
    chars.push('_');
    push_decimal(&mut chars, counter);
    chars.push('.');
    push_str(&mut chars, file_type.as_str());
    assert(chars@ =~= attachment_name(dir_name@, counter as nat, file_type@));
    let new_name = string_of(&chars);
    let path = join2("attachment/", new_name.as_str());
    let mime_type = get_mime_type(file_type.as_str());
    Attachment {
        original_name: copy_str(name),
        new_name,
        file_type,
        path,
        file_data: copy_bytes(data),
        file_size: data.len(),
        mime_type,
    }
}

/// Two attachments of one item that got different counters got different
/// names, whatever their extensions.
pub proof fn lemma_attachment_names_differ(
    dir_name: Seq<char>,
    a: nat,
    ext_a: Seq<char>,
    b: nat,
    ext_b: Seq<char>,
)
    requires
        a != b,
    ensures
        attachment_name(dir_name, a, ext_a) != attachment_name(dir_name, b, ext_b),
{
    let x = attachment_name(dir_name, a, ext_a);
    let y = attachment_name(dir_name, b, ext_b);
    let da = decimal(a);
    let db = decimal(b);
    crate::text::lemma_decimal_digits(a);
    crate::text::lemma_decimal_digits(b);
    if x == y {
        let base: int = dir_name.len() as int + 1;
        let la: int = da.len() as int;
        let lb: int = db.len() as int;
        assert forall|i: int| 0 <= i < da.len() implies x[base + i] == da[i] by {}
        assert forall|i: int| 0 <= i < db.len() implies y[base + i] == db[i] by {}
        assert(x[base + la] == '.');
        assert(y[base + lb] == '.');
        if da.len() < db.len() {
            assert(y[base + la] == db[la]);
            assert(crate::text::is_digit(db[la]));
        } else if db.len() < da.len() {
            assert(x[base + lb] == da[lb]);
            assert(crate::text::is_digit(da[lb]));
        } else {
            assert forall|i: int| 0 <= i < da.len() implies da[i] == db[i] by {
                assert(x[base + i] == y[base + i]);
            }
            assert(da =~= db);
            crate::text::lemma_decimal_injective(a, b);
        }
    }
}

/// What a walk through an attachment directory keeps of an entry: the name
/// and the bytes of a file whose name does not begin with a dot. A
/// directory is passed over; a file that could not be read, or whose name
/// is not Unicode, ends the walk.
pub open spec fn kept_file(n: Node) -> Result<Seq<(Seq<char>, Seq<u8>)>, CompileErrorModel> {
    match n {
        Node::Nameless { directory, markdown } => if directory {
            Ok(Seq::empty())
        } else {
            Err(CompileErrorModel::Io("Invalid file name"@))
        },
        Node::Dir { name, listing } => Ok(Seq::empty()),
        Node::File { name, content } => if is_hidden(name@) {
            Ok(Seq::empty())
        } else {
            match content {
                Err(m) => Err(CompileErrorModel::Io(m@)),
                Ok(bytes) => Ok(seq![(name@, bytes@)]),
            }
        },
    }
}

/// `kept_file` as a step of a walk.
pub open spec fn kept_step() -> spec_fn(Node) -> Result<
    Seq<(Seq<char>, Seq<u8>)>,
    CompileErrorModel,
> {
    |n: Node| kept_file(n)
}

/// The attachments that the kept files become: the first gets the counter 1,
/// each next one the next number.
pub open spec fn numbered(dir_name: Seq<char>, kept: Seq<(Seq<char>, Seq<u8>)>) -> Seq<
    AttachmentModel,
> {
    Seq::new(kept.len(), |k: int| attachment_of(dir_name, (k + 1) as nat, kept[k].0, kept[k].1))
}

/// The attachments of an item whose directory has the given name and whose
/// attachment directory gave the given listing.
pub open spec fn attachments_of(dir_name: Seq<char>, listing: Listing) -> Result<
    Seq<AttachmentModel>,
    CompileErrorModel,
> {
    match gather_listing(listing, kept_step()) {
        Err(e) => Err(e),
        Ok(kept) => Ok(numbered(dir_name, kept)),
    }
}

/// The view of a list of attachments, or of the error.
pub open spec fn attachments_outcome(r: Result<Vec<Attachment>, CompileError>) -> Result<
    Seq<AttachmentModel>,
    CompileErrorModel,
> {
    match r {
        Ok(list) => Ok(attachments_view(list@)),
        Err(e) => Err(e@),
    }
}

/// No two attachments of a list have the same new name.
pub open spec fn distinct_names(list: Seq<AttachmentModel>) -> bool {
    forall|i: int, j: int|
        #![trigger list[i], list[j]]
        0 <= i < j < list.len() ==> list[i].new_name != list[j].new_name
}

/// The attachments that a list of kept files becomes are as many as the
/// files, each has the name made of the directory's name, its place in the
/// list counted from 1, and its extension, and no two have the same name.
pub proof fn lemma_numbered_names(dir_name: Seq<char>, kept: Seq<(Seq<char>, Seq<u8>)>)
    ensures
        numbered(dir_name, kept).len() == kept.len(),
        forall|k: int|
            0 <= k < kept.len() ==> (#[trigger] numbered(dir_name, kept)[k]).new_name
                == attachment_name(
                dir_name,
                (k + 1) as nat,
                numbered(dir_name, kept)[k].file_type,
            ),
        distinct_names(numbered(dir_name, kept)),
{
    let list = numbered(dir_name, kept);
    assert forall|i: int, j: int| #![trigger list[i], list[j]] 0 <= i < j < list.len() implies list[i].new_name
        != list[j].new_name by {
        lemma_attachment_names_differ(
            dir_name,
            (i + 1) as nat,
            list[i].file_type,
            (j + 1) as nat,
            list[j].file_type,
        );
    }
}

/// Scans the attachment directory of an item. Directories and files whose
/// names begin with a dot are passed over; each other file becomes an
/// attachment under a new name. A file that could not be read, or a listing
/// that ended early, is an error.
pub fn scan_attachments(dir_name: &str, listing: &Listing) -> (r: Result<
    Vec<Attachment>,
    CompileError,
>)
    ensures
        attachments_outcome(r) == attachments_of(dir_name@, *listing),
        r matches Ok(list) ==> distinct_names(attachments_view(list@)),
{
    let ghost all = listing.entries@;
    let ghost mut kept: Seq<(Seq<char>, Seq<u8>)> = Seq::empty();
    let mut attachments: Vec<Attachment> = Vec::new();
    let mut i: usize = 0;
    proof {
        lemma_gather_start(all, kept_step());
        assert(attachments_view(attachments@) =~= numbered(dir_name@, kept));
    }
    while i < listing.entries.len()
        invariant
            i <= listing.entries.len(),
            all == listing.entries@,
            attachments.len() == kept.len(),
            attachments.len() <= i,
            attachments_view(attachments@) == numbered(dir_name@, kept),
            gather(all, kept_step()) == after(kept, gather(all.skip(i as int), kept_step())),
        decreases listing.entries.len() - i,
    {
        proof {
            lemma_gather_next(all, kept_step(), i as int, kept);
        }
        match &listing.entries[i] {
            Node::Nameless { directory, markdown } => {
                if !*directory {
                    return Err(CompileError::Io(copy_str("Invalid file name")));
                }
                proof {
                    assert(kept + Seq::<(Seq<char>, Seq<u8>)>::empty() =~= kept);
                }
            },
            Node::Dir { name, listing } => {
                proof {
                    assert(kept + Seq::<(Seq<char>, Seq<u8>)>::empty() =~= kept);
                }
            },
            Node::File { name, content } => {
                if hidden(name.as_str()) {
                    proof {
                        assert(kept + Seq::<(Seq<char>, Seq<u8>)>::empty() =~= kept);
                    }
                } else {
                    match content {
                        Err(m) => {
                            return Err(CompileError::Io(m.clone()));
                        },
                        Ok(bytes) => {
                            let counter: usize = attachments.len() + 1;
                            let a = make_attachment(dir_name, counter, name.as_str(), bytes);
                            let ghost before = attachments_view(attachments@);
                            attachments.push(a);
                            proof {
                                let grown = kept + seq![(name@, bytes@)];
                                assert(attachments_view(attachments@) =~= before.push(a@));
                                assert(before.push(a@) =~= numbered(dir_name@, grown));
                                kept = grown;
                            }
                        },
                    }
                }
            },
        }
        i += 1;
    }
    proof {
        lemma_gather_done(all, kept_step(), kept);
        lemma_numbered_names(dir_name@, kept);
    }
    match &listing.failure {
        Some(m) => Err(CompileError::Io(m.clone())),
        None => Ok(attachments),
    }
}

} // verus!
