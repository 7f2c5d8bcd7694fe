//! Values carried by the responses of the Neocities API.

use vstd::prelude::*;
use vstd::string::StringExecFns;
use crate::error::{Error, ErrorKind, ErrorView};
use crate::text::push_char;

verus! {

/// The site's metadata, as `/info` reports it.
#[derive(Debug, PartialEq)]
pub struct Info {
    /// Name of the site
    pub sitename: String,
    /// Number of views
    pub views: u64,
    /// Number of hits
    pub hits: u64,
    /// Date and time of the creation of the site
    pub created_at: String,
    /// Date and time of the last update of the site (sometimes not present)
    pub last_updated: Option<String>,
    /// Optional custom domain (only for paid accounts)
    pub domain: Option<String>,
    /// List of tags
    pub tags: Vec<String>,
    /// Latest IPFS hash (if IPFS archiving is enabled)
    pub latest_ipfs_hash: Option<String>,
}

/// One record of the listing that `/list` returns: a file or a directory.
///
/// A file carries its size and hash, a directory carries neither.
#[derive(Debug, PartialEq)]
pub struct ListEntry {
    /// Path of the file
    pub path: String,
    /// True if the file is a directory, false otherwise
    pub is_directory: bool,
    /// Date and time of the last update of the file
    pub updated_at: String,
    /// Size of the file in bytes (not present for directories)
    pub size: Option<u64>,
    /// Hash of the file (not present for directories)
    pub sha1_hash: Option<String>,
}

impl ListEntry {
    /// A record is complete when it is a directory or carries both size and hash.
    pub open spec fn complete(&self) -> bool {
        self.is_directory || (self.size is Some && self.sha1_hash is Some)
    }

    /// Tells whether the record can be turned into a tree entry.
    pub fn is_complete(&self) -> (r: bool)
        ensures
            r == self.complete(),
    {
        self.is_directory || (self.size.is_some() && self.sha1_hash.is_some())
    }
}

/// What the body of a response says, once decoded.
#[derive(Debug, PartialEq)]
pub enum Decoded<T> {
    /// The body is not JSON. Holds the decoder's message.
    NotJson(String),
    /// The body is JSON, but it is no envelope with a `result` of `success`
    /// or `error`, or the field asked for is missing or of another type.
    /// Holds the decoder's message.
    Unexpected(String),
    /// The envelope reports an error.
    Failure { error_type: Option<String>, message: Option<String> },
    /// The envelope reports success and holds the field asked for.
    Success(T),
}

/// The decimal digits of a number.
pub open spec fn decimal(n: nat) -> Seq<char>
    decreases n,
{
    if n < 10 {
        seq![(0x30 + n) as char]
    } else {
        decimal(n / 10).push((0x30 + n % 10) as char)
    }
}

/// Writes a number in decimal digits.
pub fn to_decimal(n: u16) -> (r: String)
    ensures
        r@ == decimal(n as nat),
    decreases n,
{
    if n < 10 {
        let mut text = String::new();
        push_char(&mut text, (0x30 + n) as u8 as char);
        text
    } else {
        let mut text = to_decimal(n / 10);
        push_char(&mut text, (0x30 + n % 10) as u8 as char);
        text
    }
}

/// The error that stands for a response whose body is not JSON: the status
/// line of a response with a 4xx or 5xx code, else the decoder's message.
pub open spec fn undecoded(status: u16, status_text: Seq<char>, detail: Seq<char>) -> ErrorView {
    if 400 <= status <= 599 {
        ErrorView::Api {
            message: decimal(status as nat) + seq![' '] + status_text,
            kind: ErrorKind::Status,
        }
    } else {
        ErrorView::Json(detail)
    }
}

/// The error that an envelope reports: its kind read from the `error_type`,
/// `Unknown` where there is none or it is not recognized, and its message,
/// or a note that there is none.
pub open spec fn reported(error_type: Option<String>, message: Option<String>) -> ErrorView {
    ErrorView::Api {
        message: match message {
            Some(m) => m@,
            None => "No error message provided"@,
        },
        kind: ErrorKind::spec_parse(
            match error_type {
                Some(t) => t@,
                None => Seq::empty(),
            },
        ),
    }
}

/// Extract the value that the API returns from a decoded response.
///
/// A successful envelope gives its value. An envelope that reports an error
/// gives that error. A body that is not JSON gives the status line as an
/// error of kind `Status` when the status code is 4xx or 5xx, and the
/// decoder's message otherwise. A body that is JSON but not what was asked
/// for gives the decoder's message, whatever the status code.
pub fn parse_response<T>(status: u16, status_text: &str, decoded: Decoded<T>) -> (r: Result<
    T,
    Error,
>)
    ensures
        decoded is Success ==> r is Ok && r->Ok_0 == decoded->Success_0,
        decoded is Failure ==> r is Err && r->Err_0@ == reported(
            decoded->error_type,
            decoded->message,
        ),
        decoded is NotJson ==> r is Err && r->Err_0@ == undecoded(
            status,
            status_text@,
            decoded->NotJson_0@,
        ),
        decoded is Unexpected ==> r is Err && r->Err_0@ == ErrorView::Json(
            decoded->Unexpected_0@,
        ),
{
    match decoded {
        Decoded::Success(value) => Ok(value),
        Decoded::Failure { error_type, message } => {
            let kind = match &error_type {
                Some(t) => ErrorKind::parse(t.as_str()),
                None => {
                    let none = String::new();
                    ErrorKind::parse(none.as_str())
                },
            };
            let message = match message {
                Some(m) => m,
                None => String::from_str("No error message provided"),
            };
            Err(Error::Api { message, kind })
        },
        Decoded::Unexpected(detail) => Err(Error::Json(detail)),
        Decoded::NotJson(detail) => {
            if 400 <= status && status <= 599 {
                let mut message = to_decimal(status);
                push_char(&mut message, ' ');
                message.append(status_text);
                assert(message@ =~= decimal(status as nat) + seq![' '] + status_text@);
                Err(Error::Api { message, kind: ErrorKind::Status })
            } else {
                Err(Error::Json(detail))
            }
        },
    }
}

} // verus!
