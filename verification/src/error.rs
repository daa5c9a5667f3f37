//! What can go wrong in the pipeline, by kind.

use vstd::prelude::*;

verus! {

/// Why a document could not be read as markdown with metadata.
#[derive(Debug)]
pub enum ParseError {
    /// The text opens a metadata block and never closes it.
    UnclosedFrontmatter,
    /// The metadata block is not a YAML mapping; the message says why.
    Metadata(String),
    /// A known metadata key holds a value of the wrong kind; the key is named.
    Field(String),
    /// The bytes of the document are not UTF-8.
    Encoding,
}

/// A `ParseError` with its texts as sequences of characters.
pub enum ParseErrorModel {
    UnclosedFrontmatter,
    Metadata(Seq<char>),
    Field(Seq<char>),
    Encoding,
}

impl View for ParseError {
    type V = ParseErrorModel;

    open spec fn view(&self) -> ParseErrorModel {
        match self {
            ParseError::UnclosedFrontmatter => ParseErrorModel::UnclosedFrontmatter,
            ParseError::Metadata(m) => ParseErrorModel::Metadata(m@),
            ParseError::Field(k) => ParseErrorModel::Field(k@),
            ParseError::Encoding => ParseErrorModel::Encoding,
        }
    }
}

/// The sentence that says what went wrong in parsing.
pub open spec fn parse_message(e: ParseErrorModel) -> Seq<char> {
    match e {
        ParseErrorModel::UnclosedFrontmatter => "No closing frontmatter separator"@,
        ParseErrorModel::Metadata(m) => "invalid frontmatter: "@ + m,
        ParseErrorModel::Field(k) => "invalid frontmatter field: "@ + k,
        ParseErrorModel::Encoding => "document is not valid UTF-8"@,
    }
}

impl ParseError {
    /// A sentence that says what went wrong.
    pub fn message(&self) -> (out: String)
        ensures
            out@ == parse_message(self@),
    {
        match self {
            ParseError::UnclosedFrontmatter => crate::text::copy_str(
                "No closing frontmatter separator",
            ),
            ParseError::Metadata(m) => crate::text::join2("invalid frontmatter: ", m.as_str()),
            ParseError::Field(k) => crate::text::join2("invalid frontmatter field: ", k.as_str()),
            ParseError::Encoding => crate::text::copy_str("document is not valid UTF-8"),
        }
    }

    /// A copy of this error.
    pub fn duplicate(&self) -> (out: ParseError)
        ensures
            out@ == self@,
    {
        match self {
            ParseError::UnclosedFrontmatter => ParseError::UnclosedFrontmatter,
            ParseError::Metadata(m) => ParseError::Metadata(m.clone()),
            ParseError::Field(k) => ParseError::Field(k.clone()),
            ParseError::Encoding => ParseError::Encoding,
        }
    }
}

/// Why a compile stopped. Each stage hands its first failure up unchanged.
#[derive(Debug)]
pub enum CompileError {
    /// A directory or a file could not be read.
    Io(String),
    /// A document could not be parsed.
    Parse(ParseError),
    /// The renderer failed.
    Render(String),
    /// The store failed.
    Storage(String),
}

/// A `CompileError` with its texts as sequences of characters.
pub enum CompileErrorModel {
    Io(Seq<char>),
    Parse(ParseErrorModel),
    Render(Seq<char>),
    Storage(Seq<char>),
}

impl View for CompileError {
    type V = CompileErrorModel;

    open spec fn view(&self) -> CompileErrorModel {
        match self {
            CompileError::Io(m) => CompileErrorModel::Io(m@),
            CompileError::Parse(e) => CompileErrorModel::Parse(e@),
            CompileError::Render(m) => CompileErrorModel::Render(m@),
            CompileError::Storage(m) => CompileErrorModel::Storage(m@),
        }
    }
}

impl CompileError {
    /// A sentence that says what went wrong.
    pub fn message(&self) -> (out: String)
        ensures
            out@ == match self@ {
                CompileErrorModel::Io(m) => "io error: "@ + m,
                CompileErrorModel::Parse(e) => parse_message(e),
                CompileErrorModel::Render(m) => "render error: "@ + m,
                CompileErrorModel::Storage(m) => "storage error: "@ + m,
            },
    {
        match self {
            CompileError::Io(m) => crate::text::join2("io error: ", m.as_str()),
            CompileError::Parse(e) => e.message(),
            CompileError::Render(m) => crate::text::join2("render error: ", m.as_str()),
            CompileError::Storage(m) => crate::text::join2("storage error: ", m.as_str()),
        }
    }
}

} // verus!
