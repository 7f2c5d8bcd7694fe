//! Authentication for the API: a username and password, or an API key.

use vstd::prelude::*;
use vstd::string::StringExecFns;
use vstd::utf8::{decode_utf8, encode_utf8_decode_utf8, is_char_boundary};
use base64::prelude::BASE64_STANDARD;
use base64::Engine;
use crate::order::path_bytes;
use crate::text::push_char;

verus! {

/// Authentication method for the API, either a username/password pair or an API key.
#[derive(PartialEq)]
pub enum Auth {
    Credentials(String, String),
    ApiKey(String),
}

/// What an `Auth` stands for.
pub enum AuthView {
    Credentials(Seq<char>, Seq<char>),
    ApiKey(Seq<char>),
}

impl View for Auth {
    type V = AuthView;

    open spec fn view(&self) -> AuthView {
        match self {
            Auth::Credentials(user, pass) => AuthView::Credentials(user@, pass@),
            Auth::ApiKey(key) => AuthView::ApiKey(key@),
        }
    }
}

impl Clone for Auth {
    fn clone(&self) -> (r: Self)
        ensures
            r == *self,
    {
        match self {
            Auth::Credentials(user, pass) => Auth::Credentials(user.clone(), pass.clone()),
            Auth::ApiKey(key) => Auth::ApiKey(key.clone()),
        }
    }
}

/// The standard Base64 encoding of a byte string, with padding.
pub uninterp spec fn base64_standard(data: Seq<u8>) -> Seq<char>;

/// The length of the Base64 encoding of so many bytes: four characters for
/// each three bytes begun.
pub open spec fn base64_len(len: int) -> int {
    4 * ((len + 2) / 3)
}

/// Encodes bytes in Base64.
///
/// Trusted: `Engine::encode` of the `base64` crate on its `STANDARD` engine,
/// which returns the encoding as a string and depends on the input alone. It
/// panics when the length of the encoding does not fit in `usize`, which the
/// precondition rules out.
#[verifier::external_body]
fn base64_encode(data: &[u8]) -> (text: String)
    requires
        base64_len(data@.len() as int) <= usize::MAX,
    ensures
        text@ == base64_standard(data@),
{
    BASE64_STANDARD.encode(data)
}

/// The index of the first occurrence of a character in a text; the length of
/// the text if there is none.
pub open spec fn first_index_of(text: Seq<char>, c: char) -> int
    decreases text.len(),
{
    if text.len() == 0 {
        0
    } else if text[0] == c {
        0
    } else {
        1 + first_index_of(text.drop_first(), c)
    }
}

/// The first index of a character is where it stands with none before it.
pub proof fn lemma_first_index_of(text: Seq<char>, c: char, k: int)
    requires
        0 <= k <= text.len(),
        forall|j: int| 0 <= j < k ==> text[j] != c,
        k < text.len() ==> text[k] == c,
    ensures
        first_index_of(text, c) == k,
    decreases text.len(),
{
    if k > 0 {
        let rest = text.drop_first();
        assert forall|j: int| 0 <= j < k - 1 implies rest[j] != c by {
            assert(rest[j] == text[j + 1]);
        }
        lemma_first_index_of(rest, c, k - 1);
    }
}

impl AuthView {
    /// The authentication that a configured string stands for: with a colon
    /// in it, the username before the first colon and the password behind
    /// it; without one, an API key.
    pub open spec fn parse(text: Seq<char>) -> AuthView {
        let k = first_index_of(text, ':');
        if k < text.len() {
            AuthView::Credentials(text.take(k), text.skip(k + 1))
        } else {
            AuthView::ApiKey(text)
        }
    }

    /// The configured string that stands for the authentication.
    pub open spec fn text(self) -> Seq<char> {
        match self {
            AuthView::Credentials(user, pass) => user + seq![':'] + pass,
            AuthView::ApiKey(key) => key,
        }
    }

    /// Whether the header can be written: the encoding of the credentials
    /// must have a length that fits in `usize`.
    pub open spec fn encodable(self) -> bool {
        self is Credentials ==> base64_len(path_bytes(self.text()).len() as int) <= usize::MAX
    }

    /// The value of the `Authorization` header: `Basic` and the Base64
    /// encoding of `user:pass`, or `Bearer` and the key.
    pub open spec fn header(self) -> Seq<char> {
        match self {
            AuthView::Credentials(_, _) => "Basic "@ + base64_standard(path_bytes(self.text())),
            AuthView::ApiKey(key) => "Bearer "@ + key,
        }
    }
}

impl Auth {
    /// Reads the authentication from a configured string.
    pub fn from(s: &str) -> (r: Auth)
        ensures
            r@ == AuthView::parse(s@),
    {
        broadcast use vstd::string::group_string_axioms;

        let mut user = String::new();
        let mut pass = String::new();
        let mut found = false;
        let ghost mut at: int = 0;
        for c in it: s.chars()
            invariant
                it.seq() == s@,
                !found ==> pass@.len() == 0,
                !found ==> user@ == s@.take(it.index() as int) && forall|j: int|
                    0 <= j < it.index() ==> s@[j] != ':',
                found ==> 0 <= at < it.index() && s@[at] == ':' && user@ == s@.take(at) && pass@
                    == s@.subrange(at + 1, it.index() as int) && forall|j: int|
                    0 <= j < at ==> s@[j] != ':',
        {
            if found {
                push_char(&mut pass, c);
                assert(pass@ =~= s@.subrange(at + 1, it.index() + 1));
            } else if c == ':' {
                found = true;
                proof {
                    at = it.index() as int;
                }
                assert(pass@ =~= s@.subrange(at + 1, it.index() + 1));
            } else {
                push_char(&mut user, c);
                assert(user@ =~= s@.take(it.index() + 1));
            }
        }
        if found {
            proof {
                lemma_first_index_of(s@, ':', at);
                assert(pass@ =~= s@.skip(at + 1));
            }
            Auth::Credentials(user, pass)
        } else {
            proof {
                lemma_first_index_of(s@, ':', s@.len() as int);
                assert(s@.take(s@.len() as int) =~= s@);
            }
            Auth::ApiKey(user)
        }
    }

    /// Writes the authentication as a configured string.
    pub fn into_string(self) -> (r: String)
        ensures
            r@ == self@.text(),
    {
        match self {
            Auth::Credentials(user, pass) => {
                let mut text = user;
                push_char(&mut text, ':');
                text.append(pass.as_str());
                text
            },
            Auth::ApiKey(key) => key,
        }
    }

    /// Tells whether the header can be written.
    pub fn is_encodable(&self) -> (r: bool)
        ensures
            r == self@.encodable(),
    {
        match self {
            Auth::Credentials(_, _) => {
                let text = self.clone().into_string();
                let len = text.as_str().as_bytes().len();
                len <= usize::MAX - 2 && (len + 2) / 3 <= usize::MAX / 4
            },
            Auth::ApiKey(_) => true,
        }
    }

    /// Generate the Authorization HTTP header value for this authentication method.
    pub fn header(&self) -> (r: String)
        requires
            self@.encodable(),
        ensures
            r@ == self@.header(),
    {
        match self {
            Auth::Credentials(_, _) => {
                let text = self.clone().into_string();
                let mut value = String::from_str("Basic ");
                value.append(base64_encode(text.as_str().as_bytes()).as_str());
                value
            },
            Auth::ApiKey(key) => {
                let mut value = String::from_str("Bearer ");
                value.append(key.as_str());
                value
            },
        }
    }
}

/// So many stars.
pub open spec fn stars(n: nat) -> Seq<char> {
    Seq::new(n, |i: int| '*')
}

impl AuthView {
    /// Whether the secret can be hidden: a key is cut behind its sixth
    /// byte, which must not fall inside a character.
    pub open spec fn redactable(self) -> bool {
        match self {
            AuthView::Credentials(_, _) => true,
            AuthView::ApiKey(key) => is_char_boundary(path_bytes(key), 6),
        }
    }

    /// The authentication with its secret hidden: eight stars in the place
    /// of a password; of a key its first six bytes, then 26 stars.
    pub open spec fn redacted(self) -> AuthView {
        match self {
            AuthView::Credentials(user, _) => AuthView::Credentials(user, stars(8)),
            AuthView::ApiKey(key) => AuthView::ApiKey(
                decode_utf8(path_bytes(key).subrange(0, 6)) + stars(26),
            ),
        }
    }
}

/// Writes so many stars.
fn write_stars(text: &mut String, n: usize)
    ensures
        final(text)@ == old(text)@ + stars(n as nat),
{
    let mut i: usize = 0;
    assert(text@ =~= old(text)@ + stars(0));
    while i < n
        invariant
            i <= n,
            text@ == old(text)@ + stars(i as nat),
        decreases n - i,
    {
        push_char(text, '*');
        i += 1;
        assert(text@ =~= old(text)@ + stars(i as nat));
    }
}

impl Auth {
    /// Tells whether the secret can be hidden.
    pub fn is_redactable(&self) -> (r: bool)
        ensures
            r == self@.redactable(),
    {
        match self {
            Auth::Credentials(_, _) => true,
            Auth::ApiKey(key) => key.as_str().is_char_boundary(6),
        }
    }

    /// The authentication with its secret hidden, as a log may show it.
    pub fn redacted(&self) -> (r: Auth)
        requires
            self@.redactable(),
        ensures
            r@ == self@.redacted(),
    {
        match self {
            Auth::Credentials(user, _) => {
                let mut hidden = String::new();
                write_stars(&mut hidden, 8);
                assert(hidden@ =~= stars(8));
                Auth::Credentials(user.clone(), hidden)
            },
            Auth::ApiKey(key) => {
                let (shown, _) = key.as_str().split_at(6);
                proof {
                    encode_utf8_decode_utf8(shown@);
                }
                let mut hidden = String::from_str(shown);
                write_stars(&mut hidden, 26);
                Auth::ApiKey(hidden)
            },
        }
    }
}

} // verus!
