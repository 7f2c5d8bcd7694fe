//! Documents of type `multipart/form-data`, written by `form_data_builder`.

use vstd::prelude::*;
use form_data_builder::FormData;
use std::io::Cursor;
use crate::order::path_bytes;

verus! {

#[verifier::external_type_specification]
#[verifier::external_body]
#[verifier::reject_recursive_types(W)]
pub struct ExFormData<W>(FormData<W>);

/// The boundary that a form puts between its parts.
pub uninterp spec fn form_boundary(form: FormData<Vec<u8>>) -> Seq<char>;

/// The bytes that a form has written so far.
pub uninterp spec fn form_written(form: FormData<Vec<u8>>) -> Seq<u8>;

/// Whether a form still takes parts: it does until it is finished.
pub uninterp spec fn form_open(form: FormData<Vec<u8>>) -> bool;

/// The part of a document that holds one file: the boundary line, the
/// headers that give the part's name, its file name and its content type, an
/// empty line, the content, and a line end.
pub open spec fn file_part(
    boundary: Seq<char>,
    name: Seq<char>,
    filename: Seq<char>,
    content_type: Seq<char>,
    content: Seq<u8>,
) -> Seq<u8> {
    path_bytes(
        "--"@ + boundary + "\r\n"@ + "Content-Disposition: form-data; name=\""@ + name + "\""@
            + "; filename=\""@ + filename + "\""@ + "\r\n"@ + "Content-Type: "@ + content_type
            + "\r\n"@ + "\r\n"@,
    ) + content + path_bytes("\r\n"@)
}

/// The line that ends a document.
pub open spec fn closing_line(boundary: Seq<char>) -> Seq<u8> {
    path_bytes("--"@ + boundary + "--\r\n"@)
}

/// The value of the `Content-Type` header that goes with a document.
pub open spec fn content_type_of(boundary: Seq<char>) -> Seq<char> {
    "multipart/form-data; boundary="@ + boundary
}

/// Starts a document in memory.
///
/// Trusted: `FormData::new` of the `form_data_builder` crate on an empty
/// `Vec<u8>`. The new form has written nothing and takes parts. Its boundary
/// is made from the clock and from random bytes, so nothing is said of it.
/// The call panics if the system's source of random bytes fails or if its
/// clock stands before 1970.
#[verifier::external_body]
pub(crate) fn form_new() -> (form: FormData<Vec<u8>>)
    ensures
        form_open(form),
        form_written(form) == Seq::<u8>::empty(),
{
    FormData::new(Vec::new())
}

/// Writes a file part to a document.
///
/// Trusted: `FormData::write_file` of the `form_data_builder` crate, reading
/// the content from memory. On a form that takes parts it writes the part
/// and succeeds, since writing to memory does not fail; the boundary stays,
/// and the form goes on taking parts.
#[verifier::external_body]
pub(crate) fn form_write_file(
    form: &mut FormData<Vec<u8>>,
    name: &str,
    content: &[u8],
    filename: &str,
    content_type: &str,
) -> (done: Option<()>)
    ensures
        form_open(*old(form)) ==> done is Some && form_written(*final(form)) == form_written(
            *old(form),
        ) + file_part(form_boundary(*old(form)), name@, filename@, content_type@, content@),
        form_open(*final(form)) == form_open(*old(form)),
        form_boundary(*final(form)) == form_boundary(*old(form)),
{
    form.write_file(name, Cursor::new(content), Some(filename.as_ref()), content_type).ok()
}

/// The value of the `Content-Type` header that goes with the document.
///
/// Trusted: `FormData::content_type_header` of the `form_data_builder`
/// crate, which writes `multipart/form-data; boundary=` and the boundary.
#[verifier::external_body]
pub(crate) fn form_content_type(form: &FormData<Vec<u8>>) -> (header: String)
    ensures
        header@ == content_type_of(form_boundary(*form)),
{
    form.content_type_header()
}

/// Ends a document and hands out its bytes.
///
/// Trusted: `FormData::finish` of the `form_data_builder` crate. On a form
/// that takes parts it writes the closing line and returns all that was
/// written; afterwards the form takes no more parts.
#[verifier::external_body]
pub(crate) fn form_finish(form: &mut FormData<Vec<u8>>) -> (document: Option<Vec<u8>>)
    ensures
        form_open(*old(form)) ==> document is Some && document->0@ == form_written(*old(form))
            + closing_line(form_boundary(*old(form))),
        !form_open(*final(form)),
{
    form.finish().ok()
}

} // verus!
