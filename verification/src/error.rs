//! The errors of the API client.

use vstd::prelude::*;
use vstd::string::StringExecFns;
use crate::order::{compare_paths, PathOrder};

verus! {

/// Kinds of error returned by the API.
///
/// `Status` is not sent by the API: it stands for a response with a 4xx or
/// 5xx status code whose body could not be decoded.
#[derive(Clone, Copy, Debug, PartialEq, Eq)]
pub enum ErrorKind {
    /// The site you asked for doesn't exist.
    SiteNotFound,
    /// Authentication failed
    InvalidAuth,
    /// You tried to delete `/index.html`.
    CannotDeleteIndex,
    /// You tried to delete `/`.
    CannotDeleteSiteDirectory,
    /// You tried to delete a file that doesn't exist.
    MissingFiles,
    /// You tried to upload a file with a prohibited extension.
    InvalidFileType,
    /// Server returned a 4xx/5xx status code and we couldn't parse the response as JSON.
    Status,
    /// An unknown error occurred.
    Unknown,
}

/// What went wrong with a request.
#[derive(Debug, PartialEq)]
pub enum Error {
    /// The request failed before a response body was there. Holds the
    /// transport's message.
    Transport(String),
    /// The response body is not the JSON that was expected. Holds the
    /// decoder's message.
    Json(String),
    /// API error are the errors returned as part of a JSON response body from the API.
    Api {
        /// The error message returned by the API.
        message: String,
        /// The kind of error returned by the API.
        kind: ErrorKind,
    },
}

/// What an `Error` stands for.
pub enum ErrorView {
    Transport(Seq<char>),
    Json(Seq<char>),
    Api { message: Seq<char>, kind: ErrorKind },
}

impl View for Error {
    type V = ErrorView;

    open spec fn view(&self) -> ErrorView {
        match self {
            Error::Transport(m) => ErrorView::Transport(m@),
            Error::Json(m) => ErrorView::Json(m@),
            Error::Api { message, kind } => ErrorView::Api { message: message@, kind: *kind },
        }
    }
}

impl ErrorKind {
    /// The name of the kind, as the API writes it.
    pub open spec fn spec_name(self) -> Seq<char> {
        match self {
            ErrorKind::SiteNotFound => "site_not_found"@,
            ErrorKind::InvalidAuth => "invalid_auth"@,
            ErrorKind::CannotDeleteIndex => "cannot_delete_index"@,
            ErrorKind::CannotDeleteSiteDirectory => "cannot_delete_site_directory"@,
            ErrorKind::MissingFiles => "missing_files"@,
            ErrorKind::InvalidFileType => "invalid_file_type"@,
            ErrorKind::Status => "status"@,
            ErrorKind::Unknown => "unknown"@,
        }
    }

    /// The kind that an `error_type` of the API names. `Status` and
    /// `Unknown` are never sent, so no name stands for them; a name that is
    /// not recognized stands for `Unknown`.
    pub open spec fn spec_parse(name: Seq<char>) -> ErrorKind {
        if name == "site_not_found"@ {
            ErrorKind::SiteNotFound
        } else if name == "invalid_auth"@ {
            ErrorKind::InvalidAuth
        } else if name == "cannot_delete_index"@ {
            ErrorKind::CannotDeleteIndex
        } else if name == "cannot_delete_site_directory"@ {
            ErrorKind::CannotDeleteSiteDirectory
        } else if name == "missing_files"@ {
            ErrorKind::MissingFiles
        } else if name == "invalid_file_type"@ {
            ErrorKind::InvalidFileType
        } else {
            ErrorKind::Unknown
        }
    }

    /// The name of the kind, as the API writes it.
    pub fn name(&self) -> (r: &'static str)
        ensures
            r@ == self.spec_name(),
    {
        match self {
            ErrorKind::SiteNotFound => "site_not_found",
            ErrorKind::InvalidAuth => "invalid_auth",
            ErrorKind::CannotDeleteIndex => "cannot_delete_index",
            ErrorKind::CannotDeleteSiteDirectory => "cannot_delete_site_directory",
            ErrorKind::MissingFiles => "missing_files",
            ErrorKind::InvalidFileType => "invalid_file_type",
            ErrorKind::Status => "status",
            ErrorKind::Unknown => "unknown",
        }
    }

    /// Reads the kind from an `error_type` of the API.
    pub fn parse(name: &str) -> (r: ErrorKind)
        ensures
            r == Self::spec_parse(name@),
    {
        if same(name, "site_not_found") {
            ErrorKind::SiteNotFound
        } else if same(name, "invalid_auth") {
            ErrorKind::InvalidAuth
        } else if same(name, "cannot_delete_index") {
            ErrorKind::CannotDeleteIndex
        } else if same(name, "cannot_delete_site_directory") {
            ErrorKind::CannotDeleteSiteDirectory
        } else if same(name, "missing_files") {
            ErrorKind::MissingFiles
        } else if same(name, "invalid_file_type") {
            ErrorKind::InvalidFileType
        } else {
            ErrorKind::Unknown
        }
    }
}

/// Tells whether two texts are the same.
pub fn same(a: &str, b: &str) -> (r: bool)
    ensures
        r == (a@ == b@),
{
    match compare_paths(a, b) {
        PathOrder::Same => true,
        _ => false,
    }
}

impl ErrorView {
    /// The error in words.
    pub open spec fn text(self) -> Seq<char> {
        match self {
            ErrorView::Transport(m) => "Transport error: "@ + m,
            ErrorView::Json(m) => "JSON error: "@ + m,
            ErrorView::Api { message, kind } => "API error: "@ + message + " ("@ + kind.spec_name()
                + ")"@,
        }
    }
}

impl Error {
    /// The error in words.
    pub fn to_text(&self) -> (r: String)
        ensures
            r@ == self@.text(),
    {
        match self {
            Error::Transport(m) => {
                let mut text = String::from_str("Transport error: ");
                text.append(m.as_str());
                text
            },
            Error::Json(m) => {
                let mut text = String::from_str("JSON error: ");
                text.append(m.as_str());
                text
            },
            Error::Api { message, kind } => {
                let mut text = String::from_str("API error: ");
                text.append(message.as_str());
                text.append(" (");
                text.append(kind.name());
                text.append(")");
                text
            },
        }
    }
}

} // verus!
