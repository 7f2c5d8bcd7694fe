//! What the commands decide: the lines of a listing, the sites that need an
//! API key, what becomes of a failure, and the checks of the interactive setup.

use vstd::prelude::*;
use vstd::string::StringExecFns;
use bytesize::ByteSize;
use url::Url;
use crate::auth::{Auth, AuthView};
use crate::error::Error;
use crate::params::{proxy_accepted, proxy_parses, Site, SiteView};
use crate::text::push_char;
use crate::trees::{Entry, EntryView};

verus! {

/// A size in bytes as `bytesize` writes it, in decimal units.
pub uninterp spec fn byte_size_text(size: u64) -> Seq<char>;

/// Writes a size in bytes for a reader.
///
/// Trusted: the `Display` of `ByteSize` of the `bytesize` crate, which
/// writes the size with a decimal unit. The text depends on the size alone.
#[verifier::external_body]
fn show_size(size: u64) -> (text: String)
    ensures
        text@ == byte_size_text(size),
{
    ByteSize(size).to_string()
}

/// So many spaces.
pub open spec fn spaces(n: int) -> Seq<char> {
    Seq::new(
        if n > 0 {
            n as nat
        } else {
            0
        },
        |i: int| ' ',
    )
}

/// The text, with spaces before it where it is shorter than the width.
pub open spec fn right_aligned(text: Seq<char>, width: int) -> Seq<char> {
    spaces(width - text.len()) + text
}

/// The line of a listing for an entry: for a file its size, right-aligned
/// in ten columns, two spaces, and its path; for a directory ten spaces, two
/// more, and its path with a `/` behind it.
pub open spec fn listing_line_of(entry: EntryView) -> Seq<char> {
    match entry.info {
        Some(info) => right_aligned(byte_size_text(info.size), 10) + "  "@ + entry.path,
        None => right_aligned(Seq::empty(), 10) + "  "@ + entry.path + "/"@,
    }
}

/// Writes a text with spaces before it where it is shorter than the width.
pub fn align_right(text: &str, width: usize) -> (r: String)
    ensures
        r@ == right_aligned(text@, width as int),
{
    let len = text.unicode_len();
    let mut out = String::new();
    let mut i: usize = len;
    while i < width
        invariant
            len <= i,
            i == len || i <= width,
            out@ == spaces(i - len),
        decreases width - i,
    {
        push_char(&mut out, ' ');
        i += 1;
        assert(out@ =~= spaces(i - len));
    }
    assert(out@ =~= spaces(width - len));
    out.append(text);
    out
}

/// Writes the line of a listing for an entry.
pub fn listing_line(entry: &Entry) -> (r: String)
    ensures
        r@ == listing_line_of(entry@),
{
    match &entry.info {
        Some(info) => {
            let size = show_size(info.size);
            let mut line = align_right(size.as_str(), 10);
            line.append("  ");
            line.append(entry.path.as_str());
            line
        },
        None => {
            let mut line = align_right("", 10);
            line.append("  ");
            line.append(entry.path.as_str());
            line.append("/");
            proof {
                reveal_strlit("");
                assert(""@ =~= Seq::<char>::empty());
            }
            line
        },
    }
}

/// What became of an outcome under the policy for failures.
#[derive(Debug, PartialEq)]
pub enum Tolerated<T> {
    /// The value of a success.
    Value(T),
    /// A failure that is ignored, to be reported.
    Ignored(Error),
}

/// Applies the policy for failures to an outcome: a failure is handed on,
/// unless failures are to be ignored; then it is kept for the report and the
/// work goes on.
pub fn tolerate<T>(outcome: Result<T, Error>, ignore_errors: bool) -> (r: Result<
    Tolerated<T>,
    Error,
>)
    ensures
        match outcome {
            Ok(value) => r == Ok::<Tolerated<T>, Error>(Tolerated::Value(value)),
            Err(e) => if ignore_errors {
                r == Ok::<Tolerated<T>, Error>(Tolerated::Ignored(e))
            } else {
                r == Err::<Tolerated<T>, Error>(e)
            },
        },
{
    match outcome {
        Ok(value) => Ok(Tolerated::Value(value)),
        Err(e) => if ignore_errors {
            Ok(Tolerated::Ignored(e))
        } else {
            Err(e)
        },
    }
}

/// The sites that still log in with a username and password, in their order.
pub open spec fn credential_sites(sites: Seq<(Seq<char>, SiteView)>) -> Seq<(Seq<char>, SiteView)>
    decreases sites.len(),
{
    if sites.len() == 0 {
        Seq::empty()
    } else if sites.last().1.auth is Credentials {
        credential_sites(sites.drop_last()).push(sites.last())
    } else {
        credential_sites(sites.drop_last())
    }
}

/// Picks the sites that still log in with a username and password: those
/// whose credentials an API key is to replace.
pub fn sites_with_credentials(sites: Vec<(String, Site)>) -> (r: Vec<(String, Site)>)
    ensures
        r.deep_view() == credential_sites(sites.deep_view()),
{
    let ghost all = sites.deep_view();
    let mut picked: Vec<(String, Site)> = Vec::new();
    let mut i: usize = 0;
    assert(all.take(0) =~= Seq::empty());
    assert(picked.deep_view() =~= Seq::empty());
    while i < sites.len()
        invariant
            i <= sites.len(),
            all == sites.deep_view(),
            picked.deep_view() == credential_sites(all.take(i as int)),
        decreases sites.len() - i,
    {
        proof {
            let next = all.take(i + 1);
            assert(next.drop_last() =~= all.take(i as int));
            assert(next.last() == (sites[i as int].0@, sites[i as int].1@));
        }
        match &sites[i].1.auth {
            Auth::Credentials(_, _) => {
                let ghost before = picked.deep_view();
                let pair = (sites[i].0.clone(), sites[i].1.clone());
                assert(pair.deep_view() == (sites[i as int].0@, sites[i as int].1@));
                picked.push(pair);
                assert(picked.deep_view() =~= before.push((sites[i as int].0@, sites[i as int].1@)));
            },
            Auth::ApiKey(_) => {},
        }
        i += 1;
    }
    assert(all.take(i as int) =~= all);
    picked
}

/// The verdict of a check on what the user entered.
#[derive(Debug, PartialEq)]
pub enum Validation {
    /// The entry is accepted.
    Valid,
    /// The entry is refused, for the reason given.
    Invalid(String),
}

/// What a `Validation` stands for.
pub enum ValidationView {
    Valid,
    Invalid(Seq<char>),
}

impl View for Validation {
    type V = ValidationView;

    open spec fn view(&self) -> ValidationView {
        match self {
            Validation::Valid => ValidationView::Valid,
            Validation::Invalid(reason) => ValidationView::Invalid(reason@),
        }
    }
}

/// Validate a non-empty string.
pub fn non_empty_validator(s: &str) -> (r: Validation)
    ensures
        r@ == if s@.len() == 0 {
            ValidationView::Invalid("Please enter a non-empty value."@)
        } else {
            ValidationView::Valid
        },
{
    if s.is_empty() {
        Validation::Invalid(String::from_str("Please enter a non-empty value."))
    } else {
        Validation::Valid
    }
}

/// Whether the `url` crate reads a text as a URL.
pub uninterp spec fn url_accepted(text: Seq<char>) -> bool;

/// Tells whether a text is a URL.
///
/// Trusted: `Url::parse` of the `url` crate, which reads an absolute URL
/// from a text and fails on any other. Whether it succeeds depends on the
/// text alone.
#[verifier::external_body]
fn url_parses(text: &str) -> (r: bool)
    ensures
        r == url_accepted(text@),
{
    Url::parse(text).is_ok()
}

/// The verdict on a proxy, given whether it reads as a URL and as the
/// address of a proxy: none may be left out, and one that is given has to
/// read as both.
pub open spec fn proxy_verdict(proxy: Seq<char>, is_url: bool, is_proxy: bool) -> ValidationView {
    if proxy.len() == 0 || (is_url && is_proxy) {
        ValidationView::Valid
    } else {
        ValidationView::Invalid("Invalid proxy URL"@)
    }
}

/// Gives the verdict on a proxy from what the two readers said of it.
pub fn judge_proxy(s: &str, is_url: bool, is_proxy: bool) -> (r: Validation)
    ensures
        r@ == proxy_verdict(s@, is_url, is_proxy),
{
    if s.is_empty() || (is_url && is_proxy) {
        Validation::Valid
    } else {
        Validation::Invalid(String::from_str("Invalid proxy URL"))
    }
}

/// Validate the proxy URL.
pub fn proxy_validator(s: &str) -> (r: Validation)
    ensures
        r@ == proxy_verdict(s@, url_accepted(s@), proxy_accepted(s@)),
{
    if s.is_empty() {
        Validation::Valid
    } else {
        let is_url = url_parses(s);
        let is_proxy = is_url && proxy_parses(s);
        judge_proxy(s, is_url, is_proxy)
    }
}

/// Validate the path to the local directory, given whether a directory is there.
pub fn path_validator(is_directory: bool) -> (r: Validation)
    ensures
        r@ == if is_directory {
            ValidationView::Valid
        } else {
            ValidationView::Invalid("Path does not exist or is not a directory"@)
        },
{
    if !is_directory {
        Validation::Invalid(String::from_str("Path does not exist or is not a directory"))
    } else {
        Validation::Valid
    }
}

/// Build a [`Site`] object for the login: it logs in with the username and
/// password, its local path is `/`, and whether the account is free is open.
pub fn build_site(username: String, password: String, proxy: Option<String>) -> (site: Site)
    ensures
        site@ == (SiteView {
            auth: AuthView::Credentials(username@, password@),
            free_account: None,
            path: "/"@,
            proxy: match proxy {
                Some(p) => Some(p@),
                None => None,
            },
        }),
{
    Site {
        auth: Auth::Credentials(username, password),
        path: String::from_str("/"),
        free_account: None,
        proxy,
    }
}

impl Site {
    /// The site with an API key in the place of its authentication.
    pub fn with_api_key(self, key: String) -> (site: Site)
        ensures
            site@ == (SiteView { auth: AuthView::ApiKey(key@), ..self@ }),
    {
        Site {
            auth: Auth::ApiKey(key),
            free_account: self.free_account,
            path: self.path,
            proxy: self.proxy,
        }
    }

    /// The site with the local path and the kind of account that the user chose.
    pub fn with_options(self, path: String, free_account: bool) -> (site: Site)
        ensures
            site@ == (SiteView { path: path@, free_account: Some(free_account), ..self@ }),
    {
        Site { auth: self.auth, free_account: Some(free_account), path, proxy: self.proxy }
    }
}

} // verus!
