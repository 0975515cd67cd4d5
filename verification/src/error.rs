//! What can go wrong, by kind.

use vstd::prelude::*;
use vstd::string::*;

verus! {

/// The kinds of failure.
#[derive(Clone, Copy, Debug, PartialEq, Eq, Structural)]
pub enum ErrorKind {
    /// The backing path or address could not be opened or reached.
    SourceUnavailable,
    /// The archive or the listing is malformed.
    ParseFailure,
    /// A locator leads to nothing.
    NotFound,
    /// No record answers to a requested name.
    IconNotFound,
    /// The network failed.
    TransportFailure,
    /// A local read or write failed.
    IoFailure,
}

/// A failure: its kind, and the name, locator or message that goes with it.
#[derive(Clone, Debug, PartialEq, Eq)]
pub struct IconError {
    pub kind: ErrorKind,
    pub detail: String,
}

/// The model of an [`IconError`].
pub struct ErrorModel {
    pub kind: ErrorKind,
    pub detail: Seq<char>,
}

impl View for IconError {
    type V = ErrorModel;

    open spec fn view(&self) -> ErrorModel {
        ErrorModel { kind: self.kind, detail: self.detail@ }
    }
}

/// The words that name a kind of failure.
pub open spec fn kind_label(kind: ErrorKind) -> Seq<char> {
    match kind {
        ErrorKind::SourceUnavailable => "source unavailable"@,
        ErrorKind::ParseFailure => "malformed content"@,
        ErrorKind::NotFound => "not found"@,
        ErrorKind::IconNotFound => "icon not found"@,
        ErrorKind::TransportFailure => "transport failure"@,
        ErrorKind::IoFailure => "i/o failure"@,
    }
}

/// A failure's text: the words for its kind, a colon and a space, its detail.
pub open spec fn error_text(error: ErrorModel) -> Seq<char> {
    kind_label(error.kind) + ": "@ + error.detail
}

/// `r` is a failure of the given kind.
pub open spec fn fails_with<T>(r: Result<T, IconError>, kind: ErrorKind) -> bool {
    r matches Err(e) && e.kind == kind
}

/// `r` is the failure of the given kind about `detail`.
pub open spec fn fails_about<T>(r: Result<T, IconError>, kind: ErrorKind, detail: Seq<char>) -> bool {
    r matches Err(e) && e@ == (ErrorModel { kind, detail })
}

impl IconError {
    /// A failure of the given kind about `detail`.
    pub fn new(kind: ErrorKind, detail: &str) -> (e: IconError)
        ensures
            e@ == (ErrorModel { kind, detail: detail@ }),
    {
        IconError { kind, detail: String::from_str(detail) }
    }

    /// The failure to find a record that answers to `name`.
    pub fn icon_not_found(name: &str) -> (e: IconError)
        ensures
            e@ == (ErrorModel { kind: ErrorKind::IconNotFound, detail: name@ }),
    {
        IconError::new(ErrorKind::IconNotFound, name)
    }

    /// The words for this failure's kind.
    pub fn label(&self) -> (r: &'static str)
        ensures
            r@ == kind_label(self.kind),
    {
        match self.kind {
            ErrorKind::SourceUnavailable => "source unavailable",
            ErrorKind::ParseFailure => "malformed content",
            ErrorKind::NotFound => "not found",
            ErrorKind::IconNotFound => "icon not found",
            ErrorKind::TransportFailure => "transport failure",
            ErrorKind::IoFailure => "i/o failure",
        }
    }

    /// This failure as text.
    pub fn message(&self) -> (r: String)
        ensures
            r@ == error_text(self@),
    {
        let mut r = String::from_str(self.label());
        r.append(": ");
        r.append(self.detail.as_str());
        r
    }
}

} // verus!
