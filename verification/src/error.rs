//! Errors and how they read.

use vstd::prelude::*;
use vstd::string::*;

use crate::text::{decimal, push_decimal};

verus! {

/// The result of an operation that can fail.
pub type ElicitDocResult<T> = Result<T, ElicitDocError>;

/// What went wrong.
#[derive(Clone, Debug, PartialEq, Eq)]
pub enum ElicitDocErrorKind {
    /// Failed to invoke or locate `cargo`.
    CargoInvocation(String),
    /// `cargo rustdoc` produced no JSON output file.
    RustdocOutputMissing(String),
    /// Failed to parse the rustdoc JSON.
    RustdocParse(String),
    /// Failed to locate the workspace root via `cargo metadata`.
    CargoMetadata(String),
    /// Reading or writing a file failed.
    Io(String),
    /// CSV serialization failed.
    Csv(String),
}

/// What an [`ElicitDocErrorKind`] says.
#[verifier::ext_equal]
pub enum ErrorKindView {
    CargoInvocation(Seq<char>),
    RustdocOutputMissing(Seq<char>),
    RustdocParse(Seq<char>),
    CargoMetadata(Seq<char>),
    Io(Seq<char>),
    Csv(Seq<char>),
}

impl View for ElicitDocErrorKind {
    type V = ErrorKindView;

    open spec fn view(&self) -> ErrorKindView {
        match self {
            ElicitDocErrorKind::CargoInvocation(m) => ErrorKindView::CargoInvocation(m@),
            ElicitDocErrorKind::RustdocOutputMissing(m) => ErrorKindView::RustdocOutputMissing(m@),
            ElicitDocErrorKind::RustdocParse(m) => ErrorKindView::RustdocParse(m@),
            ElicitDocErrorKind::CargoMetadata(m) => ErrorKindView::CargoMetadata(m@),
            ElicitDocErrorKind::Io(m) => ErrorKindView::Io(m@),
            ElicitDocErrorKind::Csv(m) => ErrorKindView::Csv(m@),
        }
    }
}

impl ErrorKindView {
    /// The message of the kind.
    pub open spec fn message(self) -> Seq<char> {
        match self {
            ErrorKindView::CargoInvocation(m) => "cargo invocation failed: "@ + m,
            ErrorKindView::RustdocOutputMissing(m) => "rustdoc JSON not found at "@ + m,
            ErrorKindView::RustdocParse(m) => "rustdoc JSON parse error: "@ + m,
            ErrorKindView::CargoMetadata(m) => "cargo metadata error: "@ + m,
            ErrorKindView::Io(m) => "IO error: "@ + m,
            ErrorKindView::Csv(m) => "CSV error: "@ + m,
        }
    }
}

fn prefixed(prefix: &str, m: &String) -> (r: String)
    ensures
        r@ == prefix@ + m@,
{
    let mut out = prefix.to_string();
    out.append(m.as_str());
    out
}

impl ElicitDocErrorKind {
    /// The message of the kind.
    pub fn to_text(&self) -> (r: String)
        ensures
            r@ == self@.message(),
    {
        match self {
            ElicitDocErrorKind::CargoInvocation(m) => prefixed("cargo invocation failed: ", m),
            ElicitDocErrorKind::RustdocOutputMissing(m) => prefixed("rustdoc JSON not found at ", m),
            ElicitDocErrorKind::RustdocParse(m) => prefixed("rustdoc JSON parse error: ", m),
            ElicitDocErrorKind::CargoMetadata(m) => prefixed("cargo metadata error: ", m),
            ElicitDocErrorKind::Io(m) => prefixed("IO error: ", m),
            ElicitDocErrorKind::Csv(m) => prefixed("CSV error: ", m),
        }
    }
}

/// An error with the place in the program that raised it.
#[derive(Clone, Debug)]
pub struct ElicitDocError {
    pub kind: ElicitDocErrorKind,
    pub line: u32,
    pub file: String,
}

impl ElicitDocError {
    /// An error of a kind, raised at a place.
    pub fn new(kind: ElicitDocErrorKind, file: &str, line: u32) -> (r: Self)
        ensures
            r.kind == kind,
            r.file@ == file@,
            r.line == line,
    {
        ElicitDocError { kind, line, file: file.to_string() }
    }

    /// `cargo` could not be invoked.
    pub fn cargo_invocation(msg: &str, file: &str, line: u32) -> (r: Self)
        ensures
            r.kind@ == ErrorKindView::CargoInvocation(msg@),
            r.file@ == file@,
            r.line == line,
    {
        Self::new(ElicitDocErrorKind::CargoInvocation(msg.to_string()), file, line)
    }

    /// The rustdoc JSON is not where it should be.
    pub fn rustdoc_missing(path: &str, file: &str, line: u32) -> (r: Self)
        ensures
            r.kind@ == ErrorKindView::RustdocOutputMissing(path@),
            r.file@ == file@,
            r.line == line,
    {
        Self::new(ElicitDocErrorKind::RustdocOutputMissing(path.to_string()), file, line)
    }

    /// The rustdoc JSON could not be parsed.
    pub fn rustdoc_parse(msg: &str, file: &str, line: u32) -> (r: Self)
        ensures
            r.kind@ == ErrorKindView::RustdocParse(msg@),
            r.file@ == file@,
            r.line == line,
    {
        Self::new(ElicitDocErrorKind::RustdocParse(msg.to_string()), file, line)
    }

    /// `cargo metadata` failed.
    pub fn cargo_metadata(msg: &str, file: &str, line: u32) -> (r: Self)
        ensures
            r.kind@ == ErrorKindView::CargoMetadata(msg@),
            r.file@ == file@,
            r.line == line,
    {
        Self::new(ElicitDocErrorKind::CargoMetadata(msg.to_string()), file, line)
    }

    /// A file could not be read or written.
    pub fn io(msg: &str, file: &str, line: u32) -> (r: Self)
        ensures
            r.kind@ == ErrorKindView::Io(msg@),
            r.file@ == file@,
            r.line == line,
    {
        Self::new(ElicitDocErrorKind::Io(msg.to_string()), file, line)
    }

    /// A CSV document could not be made.
    pub fn csv(msg: &str, file: &str, line: u32) -> (r: Self)
        ensures
            r.kind@ == ErrorKindView::Csv(msg@),
            r.file@ == file@,
            r.line == line,
    {
        Self::new(ElicitDocErrorKind::Csv(msg.to_string()), file, line)
    }

    /// The error as a line of text.
    pub fn to_text(&self) -> (r: String)
        ensures
            r@ == "elicit_doc: "@ + self.kind@.message() + " at "@ + self.file@ + ":"@ + decimal(
                self.line as nat,
            ),
    {
        let mut out = "elicit_doc: ".to_string();
        out.append(self.kind.to_text().as_str());
        out.append(" at ");
        out.append(self.file.as_str());
        out.append(":");
        push_decimal(&mut out, self.line as u128);
        out
    }
}

}
