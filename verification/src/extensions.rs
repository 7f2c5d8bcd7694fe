//! The file types that a free account may hold.

use vstd::prelude::*;
use typed_path::Utf8UnixPath;
use crate::order::{compare_paths, PathOrder};
use crate::text::push_char;

verus! {

/// List of file extensions allowed for free accounts.
pub open spec fn allowed_extensions() -> Seq<Seq<char>> {
    seq![
        "apng"@,
        "asc"@,
        "atom"@,
        "avif"@,
        "bin"@,
        "css"@,
        "csv"@,
        "dae"@,
        "eot"@,
        "epub"@,
        "geojson"@,
        "gif"@,
        "gltf"@,
        "gpg"@,
        "htm"@,
        "html"@,
        "ico"@,
        "jpeg"@,
        "jpg"@,
        "js"@,
        "json"@,
        "key"@,
        "kml"@,
        "knowl"@,
        "less"@,
        "manifest"@,
        "map"@,
        "markdown"@,
        "md"@,
        "mf"@,
        "mid"@,
        "midi"@,
        "mtl"@,
        "obj"@,
        "opml"@,
        "osdx"@,
        "otf"@,
        "pdf"@,
        "pgp"@,
        "pls"@,
        "png"@,
        "rdf"@,
        "resolveHandle"@,
        "rss"@,
        "sass"@,
        "scss"@,
        "svg"@,
        "text"@,
        "toml"@,
        "tsv"@,
        "ttf"@,
        "txt"@,
        "webapp"@,
        "webmanifest"@,
        "webp"@,
        "woff"@,
        "woff2"@,
        "xcf"@,
        "xml"@,
        "yaml"@,
        "yml"@,
    ]
}

fn allowed_list() -> (list: [&'static str; 61])
    ensures
        list@.len() == allowed_extensions().len(),
        forall|i: int| 0 <= i < list@.len() ==> (#[trigger] list@[i])@ == allowed_extensions()[i],
{
    [
        "apng",
        "asc",
        "atom",
        "avif",
        "bin",
        "css",
        "csv",
        "dae",
        "eot",
        "epub",
        "geojson",
        "gif",
        "gltf",
        "gpg",
        "htm",
        "html",
        "ico",
        "jpeg",
        "jpg",
        "js",
        "json",
        "key",
        "kml",
        "knowl",
        "less",
        "manifest",
        "map",
        "markdown",
        "md",
        "mf",
        "mid",
        "midi",
        "mtl",
        "obj",
        "opml",
        "osdx",
        "otf",
        "pdf",
        "pgp",
        "pls",
        "png",
        "rdf",
        "resolveHandle",
        "rss",
        "sass",
        "scss",
        "svg",
        "text",
        "toml",
        "tsv",
        "ttf",
        "txt",
        "webapp",
        "webmanifest",
        "webp",
        "woff",
        "woff2",
        "xcf",
        "xml",
        "yaml",
        "yml",
    ]
}

/// The extension of a path of `/`-separated segments, as `typed_path` reads
/// it: the part of the file name behind its last `.`, if the path has a file
/// name and that name has a `.` behind its first character.
pub uninterp spec fn unix_extension(path: Seq<char>) -> Option<Seq<char>>;

/// Extracts the extension of a path.
///
/// Trusted: `Utf8UnixPath::new` and `Utf8Path::extension` of the `typed_path`
/// crate. The extension is read from the text of the path alone.
#[verifier::external_body]
fn path_extension(path: &str) -> (extension: Option<String>)
    ensures
        extension.deep_view() == unix_extension(path@),
{
    Utf8UnixPath::new(path).extension().map(|e| e.to_owned())
}

/// The lower-case form of an ASCII letter; any other character is itself.
pub open spec fn ascii_lower(c: char) -> char {
    if 'A' <= c && c <= 'Z' {
        ((c as u8) + 32) as char
    } else {
        c
    }
}

/// The text with its ASCII letters in lower case.
pub open spec fn lower_case(text: Seq<char>) -> Seq<char> {
    Seq::new(text.len(), |i: int| ascii_lower(text[i]))
}

/// Puts the ASCII letters of a text in lower case.
pub fn to_lower_case(text: &str) -> (r: String)
    ensures
        r@ == lower_case(text@),
{
    broadcast use vstd::string::group_string_axioms;

    let mut out = String::new();
    for c in it: text.chars()
        invariant
            it.seq() == text@,
            out@ == lower_case(text@.take(it.index() as int)),
    {
        let lower = if 'A' <= c && c <= 'Z' {
            ((c as u8) + 32) as char
        } else {
            c
        };
        push_char(&mut out, lower);
        assert(out@ =~= lower_case(text@.take(it.index() + 1)));
    }
    assert(text@.take(text@.len() as int) =~= text@);
    out
}

/// An extension is on the list when it is one of its entries, letters of
/// either case taken for the same.
pub open spec fn on_allowlist(extension: Seq<char>) -> bool {
    exists|i: int|
        0 <= i < allowed_extensions().len() && lower_case(#[trigger] allowed_extensions()[i])
            == lower_case(extension)
}

/// Whether an account may hold a file with the given extension. A paid
/// account may hold any file. A free account may hold it when the extension
/// is on the list, whatever the case of its letters; a file without
/// extension is not.
pub open spec fn extension_allowed(free_account: bool, extension: Option<Seq<char>>) -> bool {
    !free_account || on_allowlist(
        match extension {
            Some(e) => e,
            None => Seq::empty(),
        },
    )
}

/// Tells whether an account may hold a file with the given extension.
pub fn is_extension_allowed(free_account: bool, extension: Option<&str>) -> (r: bool)
    ensures
        r == extension_allowed(
            free_account,
            match extension {
                Some(e) => Some(e@),
                None => None,
            },
        ),
{
    if !free_account {
        return true;
    }
    let lower = match extension {
        Some(e) => to_lower_case(e),
        None => String::new(),
    };
    assert(lower_case(Seq::empty()) =~= Seq::empty());
    let list = allowed_list();
    let mut i: usize = 0;
    while i < list.len()
        invariant
            i <= list@.len(),
            free_account,
            lower@ == lower_case(
                match extension {
                    Some(e) => e@,
                    None => Seq::empty(),
                },
            ),
            list@.len() == allowed_extensions().len(),
            forall|k: int|
                0 <= k < list@.len() ==> (#[trigger] list@[k])@ == allowed_extensions()[k],
            forall|k: int| 0 <= k < i ==> lower_case(#[trigger] allowed_extensions()[k]) != lower@,
        decreases list@.len() - i,
    {
        let entry = to_lower_case(list[i]);
        match compare_paths(lower.as_str(), entry.as_str()) {
            PathOrder::Same => {
                assert(lower_case(allowed_extensions()[i as int]) == lower@);
                return true;
            },
            _ => {},
        }
        i += 1;
    }
    false
}

/// Check whether the given path has an allowed extension for this account.
///
/// If `free_account` is `true`, the extension of the path has to be on the
/// list of allowed extensions, whatever the case of its letters. If it is
/// `false`, any path is allowed.
pub fn has_allowed_extension(free_account: bool, path: &str) -> (r: bool)
    ensures
        r == extension_allowed(free_account, unix_extension(path@)),
{
    if !free_account {
        true
    } else {
        match path_extension(path) {
            Some(e) => is_extension_allowed(free_account, Some(e.as_str())),
            None => is_extension_allowed(free_account, None),
        }
    }
}

} // verus!
