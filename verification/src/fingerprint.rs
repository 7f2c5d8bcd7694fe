//! The fingerprint of a file's content: its length and its SHA-1 digest.

use vstd::prelude::*;
use sha1::{Digest, Sha1};
use crate::text::push_char;
use crate::trees::{FileInfo, FileInfoView};

verus! {

/// The SHA-1 digest of a byte string.
pub uninterp spec fn sha1_digest(data: Seq<u8>) -> Seq<u8>;

/// Computes the SHA-1 digest of the data.
///
/// Trusted: `Sha1::digest` of the `sha1` crate, which hashes the whole input
/// and returns the digest, an array of 20 bytes. The digest depends on the
/// input alone.
#[verifier::external_body]
fn sha1(data: &[u8]) -> (digest: Vec<u8>)
    ensures
        digest@ == sha1_digest(data@),
        digest@.len() == 20,
{
    Sha1::digest(data).to_vec()
}

/// The lower-case hexadecimal digit of a value below 16.
pub open spec fn hex_digit(n: u8) -> char {
    if n < 10 {
        (0x30 + n) as char
    } else {
        (0x57 + n) as char
    }
}

/// The bytes in lower-case hexadecimal, two digits for each byte, the high
/// half first.
pub open spec fn hex_lower(bytes: Seq<u8>) -> Seq<char>
    decreases bytes.len(),
{
    if bytes.len() == 0 {
        Seq::empty()
    } else {
        hex_lower(bytes.drop_last()).push(hex_digit(bytes.last() / 16)).push(
            hex_digit(bytes.last() % 16),
        )
    }
}

/// A lower-case hexadecimal digit: `0` to `9` or `a` to `f`.
pub open spec fn is_hex_digit(c: char) -> bool {
    ('0' <= c && c <= '9') || ('a' <= c && c <= 'f')
}

/// A digest as a tree holds it: forty lower-case hexadecimal digits.
pub open spec fn is_digest(text: Seq<char>) -> bool {
    &&& text.len() == 40
    &&& forall|i: int| 0 <= i < text.len() ==> is_hex_digit(#[trigger] text[i])
}

/// Hexadecimal text has two characters for each byte, each of them a
/// lower-case hexadecimal digit.
pub proof fn lemma_hex_lower(bytes: Seq<u8>)
    ensures
        hex_lower(bytes).len() == 2 * bytes.len(),
        forall|i: int| 0 <= i < hex_lower(bytes).len() ==> is_hex_digit(#[trigger] hex_lower(bytes)[i]),
    decreases bytes.len(),
{
    if bytes.len() > 0 {
        lemma_hex_lower(bytes.drop_last());
        let before = hex_lower(bytes.drop_last());
        let hi = bytes.last() / 16;
        let lo = bytes.last() % 16;
        assert(is_hex_digit(hex_digit(hi)));
        assert(is_hex_digit(hex_digit(lo)));
        assert forall|i: int| 0 <= i < hex_lower(bytes).len() implies is_hex_digit(
            #[trigger] hex_lower(bytes)[i],
        ) by {
            if i < before.len() {
                assert(hex_lower(bytes)[i] == before[i]);
            }
        }
    }
}

fn digit(n: u8) -> (c: char)
    requires
        n < 16,
    ensures
        c == hex_digit(n),
{
    if n < 10 {
        (0x30 + n) as char
    } else {
        (0x57 + n) as char
    }
}

/// Writes bytes in lower-case hexadecimal.
pub fn to_hex(bytes: &[u8]) -> (text: String)
    ensures
        text@ == hex_lower(bytes@),
{
    let mut text = String::new();
    let mut i: usize = 0;
    assert(bytes@.take(0) =~= Seq::empty());
    while i < bytes.len()
        invariant
            i <= bytes.len(),
            text@ == hex_lower(bytes@.take(i as int)),
        decreases bytes.len() - i,
    {
        let b = bytes[i];
        push_char(&mut text, digit(b / 16));
        push_char(&mut text, digit(b % 16));
        proof {
            let next = bytes@.take(i + 1);
            assert(next.drop_last() =~= bytes@.take(i as int));
            assert(next.last() == b);
        }
        i += 1;
    }
    assert(bytes@.take(i as int) =~= bytes@);
    text
}

/// The fingerprint of a content: its length in bytes and its SHA-1 digest in
/// lower-case hexadecimal.
pub open spec fn fingerprint_of(content: Seq<u8>) -> FileInfoView {
    FileInfoView { size: content.len() as u64, sha1_sum: hex_lower(sha1_digest(content)) }
}

/// Computes the fingerprint of a file from its content. The digest is
/// forty lower-case hexadecimal digits.
pub fn fingerprint(content: &[u8]) -> (info: FileInfo)
    ensures
        info@ == fingerprint_of(content@),
        is_digest(info@.sha1_sum),
{
    let digest = sha1(content);
    proof {
        lemma_hex_lower(digest@);
    }
    FileInfo { size: content.len() as u64, sha1_sum: to_hex(digest.as_slice()) }
}

} // verus!
