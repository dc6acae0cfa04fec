//! Errors of the library and of the command around it.
use vstd::prelude::*;

verus! {

#[derive(Debug, PartialEq, Eq)]
pub enum Error {
    /// The text to search was empty.
    EmptyText,
    /// Reading input failed.
    IoFailure(String),
    /// No repository reference was found in the text, which it carries.
    RepoUrlNotFound(String),
    /// The clipboard could not be read.
    ClipboardReadFailure(String),
    /// No command is known that opens a browser on this platform.
    OpenNotSupported,
    /// Every command that could open the URL failed.
    CannotOpenUrl(String),
}

pub open spec fn message_of(e: Error) -> Seq<char> {
    match e {
        Error::EmptyText => "Input text is empty"@,
        Error::IoFailure(m) => "IO failure: "@ + m@,
        Error::RepoUrlNotFound(t) => "No repository URL was found in '"@ + t@ + "'"@,
        Error::ClipboardReadFailure(m) => "Could not read clipboard content: "@ + m@,
        Error::OpenNotSupported => "Cannot open a browser on this OS"@,
        Error::CannotOpenUrl(u) => "Cannot open URL '"@ + u@ + "'"@,
    }
}

impl Error {
    /// A message for people.
    pub fn message(&self) -> (r: String)
        ensures
            r@ == message_of(*self),
    {
        match self {
            Error::EmptyText => String::from_str("Input text is empty"),
            Error::IoFailure(m) => {
                let mut r = String::from_str("IO failure: ");
                r.append(m.as_str());
                r
            },
            Error::RepoUrlNotFound(t) => {
                let mut r = String::from_str("No repository URL was found in '");
                r.append(t.as_str());
                r.append("'");
                r
            },
            Error::ClipboardReadFailure(m) => {
                let mut r = String::from_str("Could not read clipboard content: ");
                r.append(m.as_str());
                r
            },
            Error::OpenNotSupported => String::from_str("Cannot open a browser on this OS"),
            Error::CannotOpenUrl(u) => {
                let mut r = String::from_str("Cannot open URL '");
                r.append(u.as_str());
                r.append("'");
                r
            },
        }
    }
}

} // verus!
