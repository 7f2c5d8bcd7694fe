//! Client for the Neocities API: the requests it sends and what it makes of
//! the replies.

use vstd::prelude::*;
use vstd::string::StringExecFns;
use crate::auth::{Auth, AuthView};
use crate::error::{Error, ErrorView};
use crate::extensions::{extension_allowed, has_allowed_extension, unix_extension};
use crate::multipart::{
    closing_line, content_type_of, file_part, form_boundary, form_content_type, form_finish,
    form_new, form_open, form_write_file, form_written,
};
use crate::response::{parse_response, reported, undecoded, Decoded};

verus! {

/// Default base URL for the Neocities API.
pub const DEFAULT_BASE_URL: &'static str = "https://neocities.org/api";

/// Default user agent to use for the requests.
pub const DEFAULT_USER_AGENT: &'static str = "neocities_client/0.1.0";

/// What the builder says of credentials whose header cannot be written.
pub const TOO_LONG: &'static str = "credentials are too long";

/// The method of a request.
#[derive(Clone, Copy, Debug, PartialEq, Eq)]
pub enum Method {
    Get,
    Post,
}

/// The body of a request.
#[derive(Debug, PartialEq)]
pub enum Body {
    /// No body.
    Empty,
    /// The fields of a form, to be sent URL-encoded.
    Form(Vec<(String, String)>),
    /// The bytes of the body; its content type is among the headers.
    Bytes(Vec<u8>),
}

/// A request to the API, ready to be sent.
#[derive(Debug, PartialEq)]
pub struct Request {
    pub method: Method,
    pub url: String,
    /// The headers, in the order in which they are set.
    pub headers: Vec<(String, String)>,
    pub body: Body,
    /// The field of the reply's envelope that holds what was asked for.
    pub field: &'static str,
}

/// What a `Body` stands for.
pub enum BodyView {
    Empty,
    Form(Seq<(Seq<char>, Seq<char>)>),
    Bytes(Seq<u8>),
}

/// What a `Request` stands for.
pub struct RequestView {
    pub method: Method,
    pub url: Seq<char>,
    pub headers: Seq<(Seq<char>, Seq<char>)>,
    pub body: BodyView,
    pub field: Seq<char>,
}

impl View for Body {
    type V = BodyView;

    open spec fn view(&self) -> BodyView {
        match self {
            Body::Empty => BodyView::Empty,
            Body::Form(fields) => BodyView::Form(fields.deep_view()),
            Body::Bytes(bytes) => BodyView::Bytes(bytes@),
        }
    }
}

impl View for Request {
    type V = RequestView;

    open spec fn view(&self) -> RequestView {
        RequestView {
            method: self.method,
            url: self.url@,
            headers: self.headers.deep_view(),
            body: self.body@,
            field: self.field@,
        }
    }
}

/// A reply of the API: the status line and what the body says.
#[derive(Debug, PartialEq)]
pub struct Reply<T> {
    pub status: u16,
    pub status_text: String,
    pub decoded: Decoded<T>,
}

/// Client for the Neocities API.
///
/// It is built with [`Client::builder()`], which returns a [`ClientBuilder`].
pub struct Client {
    base_url: String,
    user_agent: String,
    auth: Auth,
}

/// What a `Client` stands for.
pub struct ClientView {
    pub base_url: Seq<char>,
    pub user_agent: Seq<char>,
    pub auth: AuthView,
}

impl View for Client {
    type V = ClientView;

    closed spec fn view(&self) -> ClientView {
        ClientView { base_url: self.base_url@, user_agent: self.user_agent@, auth: self.auth@ }
    }
}

/// Why a client could not be built.
#[derive(Debug, PartialEq)]
pub enum ClientBuilderError {
    /// A field that has no default was not set. Holds the field's name.
    UninitializedField(&'static str),
    /// A field holds a value that a client cannot take. Holds the reason.
    ValidationError(String),
}

/// Builder for [`Client`].
pub struct ClientBuilder {
    pub base_url: Option<String>,
    pub user_agent: Option<String>,
    pub auth: Option<Auth>,
}

impl ClientBuilder {
    /// Base URL for the Neocities API. Defaults to `https://neocities.org/api`.
    pub fn base_url(self, value: String) -> (r: ClientBuilder)
        ensures
            r.base_url == Some(value),
            r.user_agent == self.user_agent,
            r.auth == self.auth,
    {
        ClientBuilder { base_url: Some(value), user_agent: self.user_agent, auth: self.auth }
    }

    /// User agent to use for the requests. Defaults to `neocities_client/x.y.z`.
    pub fn user_agent(self, value: String) -> (r: ClientBuilder)
        ensures
            r.base_url == self.base_url,
            r.user_agent == Some(value),
            r.auth == self.auth,
    {
        ClientBuilder { base_url: self.base_url, user_agent: Some(value), auth: self.auth }
    }

    /// Authorization that will be used for the requests.
    pub fn auth(self, value: Auth) -> (r: ClientBuilder)
        ensures
            r.base_url == self.base_url,
            r.user_agent == self.user_agent,
            r.auth == Some(value),
    {
        ClientBuilder { base_url: self.base_url, user_agent: self.user_agent, auth: Some(value) }
    }

    /// Builds the client. The authorization has to be set, and its header
    /// has to be writable; the other fields have defaults.
    pub fn build(self) -> (r: Result<Client, ClientBuilderError>)
        ensures
            match self.auth {
                None => r == Err::<Client, ClientBuilderError>(
                    ClientBuilderError::UninitializedField("auth"),
                ),
                Some(auth) => if auth@.encodable() {
                    r is Ok && r->Ok_0@ == (ClientView {
                        base_url: match self.base_url {
                            Some(url) => url@,
                            None => DEFAULT_BASE_URL@,
                        },
                        user_agent: match self.user_agent {
                            Some(agent) => agent@,
                            None => DEFAULT_USER_AGENT@,
                        },
                        auth: auth@,
                    })
                } else {
                    r is Err && r->Err_0 is ValidationError && r->Err_0->ValidationError_0@
                        == TOO_LONG@
                },
            },
    {
        let auth = match self.auth {
            Some(auth) => auth,
            None => {
                return Err(ClientBuilderError::UninitializedField("auth"));
            },
        };
        if !auth.is_encodable() {
            return Err(ClientBuilderError::ValidationError(String::from_str(TOO_LONG)));
        }
        let base_url = match self.base_url {
            Some(url) => url,
            None => String::from_str(DEFAULT_BASE_URL),
        };
        let user_agent = match self.user_agent {
            Some(agent) => agent,
            None => String::from_str(DEFAULT_USER_AGENT),
        };
        Ok(Client { base_url, user_agent, auth })
    }
}

impl ClientView {
    /// The URL of an endpoint: the base URL, a slash, and the endpoint's name.
    pub open spec fn endpoint(self, name: Seq<char>) -> Seq<char> {
        self.base_url + seq!['/'] + name
    }

    /// The headers that every request carries, in the order in which they
    /// are set.
    pub open spec fn headers(self) -> Seq<(Seq<char>, Seq<char>)> {
        seq![
            ("User-Agent"@, self.user_agent),
            ("Accept"@, "application/json"@),
            ("Accept-Charset"@, "utf-8"@),
            ("Authorization"@, self.auth.header()),
        ]
    }

    /// A request without a body.
    pub open spec fn get(self, name: Seq<char>, field: Seq<char>) -> RequestView {
        RequestView {
            method: Method::Get,
            url: self.endpoint(name),
            headers: self.headers(),
            body: BodyView::Empty,
            field,
        }
    }

    /// The request that deletes the given paths: a form with one field
    /// `filenames[]` for each path.
    pub open spec fn delete(self, paths: Seq<Seq<char>>) -> RequestView {
        RequestView {
            method: Method::Post,
            url: self.endpoint("delete"@),
            headers: self.headers(),
            body: BodyView::Form(Seq::new(paths.len(), |i: int| ("filenames[]"@, paths[i]))),
            field: "message"@,
        }
    }

    /// The request that uploads the given files as a document with the
    /// given boundary.
    pub open spec fn upload(self, boundary: Seq<char>, files: Seq<(Seq<char>, Seq<u8>)>) -> RequestView {
        RequestView {
            method: Method::Post,
            url: self.endpoint("upload"@),
            headers: self.headers().push(("Content-Type"@, content_type_of(boundary))),
            body: BodyView::Bytes(upload_document(boundary, files)),
            field: "message"@,
        }
    }
}

/// The parts of an upload: one for each file, named after the path that the
/// file is to have, with the file name `file` and the content type
/// `application/octet-stream`.
pub open spec fn upload_parts(boundary: Seq<char>, files: Seq<(Seq<char>, Seq<u8>)>) -> Seq<u8>
    decreases files.len(),
{
    if files.len() == 0 {
        Seq::empty()
    } else {
        upload_parts(boundary, files.drop_last()) + file_part(
            boundary,
            files.last().0,
            "file"@,
            "application/octet-stream"@,
            files.last().1,
        )
    }
}

/// The document of an upload: its parts and the closing line.
pub open spec fn upload_document(boundary: Seq<char>, files: Seq<(Seq<char>, Seq<u8>)>) -> Seq<u8> {
    upload_parts(boundary, files) + closing_line(boundary)
}

/// The files of an upload, each as the path it is to have and its content.
pub open spec fn upload_files(files: Seq<(&str, &[u8])>) -> Seq<(Seq<char>, Seq<u8>)> {
    Seq::new(files.len(), |i: int| (files[i].0@, files[i].1@))
}

/// The paths of a deletion.
pub open spec fn delete_paths(paths: Seq<&str>) -> Seq<Seq<char>> {
    Seq::new(paths.len(), |i: int| paths[i]@)
}

impl Client {
    #[verifier::type_invariant]
    spec fn well_formed(self) -> bool {
        self.auth@.encodable()
    }

    /// Return a new [`ClientBuilder`] struct.
    pub fn builder() -> (r: ClientBuilder)
        ensures
            r.base_url is None,
            r.user_agent is None,
            r.auth is None,
    {
        ClientBuilder { base_url: None, user_agent: None, auth: None }
    }

    /// The headers that every request carries.
    fn headers(&self) -> (r: Vec<(String, String)>)
        ensures
            r.deep_view() == self@.headers(),
    {
        proof {
            use_type_invariant(self);
        }
        let mut headers: Vec<(String, String)> = Vec::new();
        headers.push((String::from_str("User-Agent"), self.user_agent.clone()));
        headers.push((String::from_str("Accept"), String::from_str("application/json")));
        headers.push((String::from_str("Accept-Charset"), String::from_str("utf-8")));
        headers.push((String::from_str("Authorization"), self.auth.header()));
        assert(headers.deep_view() =~= self@.headers());
        headers
    }

    /// The URL of an endpoint.
    fn endpoint(&self, name: &str) -> (r: String)
        ensures
            r@ == self@.endpoint(name@),
    {
        let mut url = self.base_url.clone();
        url.append("/");
        url.append(name);
        proof {
            reveal_strlit("/");
            assert(url@ =~= self@.endpoint(name@));
        }
        url
    }

    /// Build a new GET request for the given endpoint.
    ///
    /// This method will set the appropriate headers, including the `Authorization` header.
    fn make_get_request(&self, name: &str, field: &'static str) -> (r: Request)
        ensures
            r@ == self@.get(name@, field@),
    {
        Request {
            method: Method::Get,
            url: self.endpoint(name),
            headers: self.headers(),
            body: Body::Empty,
            field,
        }
    }

    /// The request that gets the website info.
    pub fn info(&self) -> (r: Request)
        ensures
            r@ == self@.get("info"@, "info"@),
    {
        self.make_get_request("info", "info")
    }

    /// The request that gets an API key for the website.
    pub fn key(&self) -> (r: Request)
        ensures
            r@ == self@.get("key"@, "api_key"@),
    {
        self.make_get_request("key", "api_key")
    }

    /// The request that lists the files on the website.
    pub fn list(&self) -> (r: Request)
        ensures
            r@ == self@.get("list"@, "files"@),
    {
        self.make_get_request("list", "files")
    }

    /// The request that deletes one or more files from the website.
    pub fn delete(&self, paths: &[&str]) -> (r: Request)
        ensures
            r@ == self@.delete(delete_paths(paths@)),
    {
        let mut form: Vec<(String, String)> = Vec::new();
        let mut i: usize = 0;
        while i < paths.len()
            invariant
                i <= paths.len(),
                form.deep_view() == Seq::new(
                    i as nat,
                    |k: int| ("filenames[]"@, delete_paths(paths@)[k]),
                ),
            decreases paths.len() - i,
        {
            let ghost before = form.deep_view();
            let field = (String::from_str("filenames[]"), String::from_str(paths[i]));
            assert(field.deep_view() == ("filenames[]"@, paths@[i as int]@));
            form.push(field);
            assert(form.deep_view() =~= before.push(("filenames[]"@, paths@[i as int]@)));
            i += 1;
            assert(form.deep_view() =~= Seq::new(
                i as nat,
                |k: int| ("filenames[]"@, delete_paths(paths@)[k]),
            ));
        }
        let request = Request {
            method: Method::Post,
            url: self.endpoint("delete"),
            headers: self.headers(),
            body: Body::Form(form),
            field: "message",
        };
        assert(request@.body == self@.delete(delete_paths(paths@)).body) by {
            assert(form.deep_view() =~= Seq::new(
                paths@.len(),
                |k: int| ("filenames[]"@, delete_paths(paths@)[k]),
            ));
        }
        request
    }

    /// The request that uploads one or more files to the website.
    ///
    /// This method receives a list of tuples, each containing the path of the file and the
    /// contents of the file. The document gets a boundary of its own, which
    /// its content type names.
    pub fn upload(&self, files: &[(&str, &[u8])]) -> (r: Request)
        ensures
            exists|boundary: Seq<char>| r@ == #[trigger] self@.upload(boundary, upload_files(files@)),
    {
        let mut form = form_new();
        let ghost boundary = form_boundary(form);
        let ghost all = upload_files(files@);
        let mut i: usize = 0;
        assert(all.take(0) =~= Seq::empty());
        while i < files.len()
            invariant
                i <= files.len(),
                all == upload_files(files@),
                form_open(form),
                form_boundary(form) == boundary,
                form_written(form) == upload_parts(boundary, all.take(i as int)),
            decreases files.len() - i,
        {
            let (name, content) = files[i];
            let _ = form_write_file(&mut form, name, content, "file", "application/octet-stream");
            proof {
                let next = all.take(i + 1);
                assert(next.drop_last() =~= all.take(i as int));
                assert(next.last() == (name@, content@));
            }
            i += 1;
        }
        assert(all.take(i as int) =~= all);
        let content_type = form_content_type(&form);
        let body = match form_finish(&mut form) {
            Some(document) => document,
            None => unreached(),
        };
        let mut headers = self.headers();
        let ghost standard = headers.deep_view();
        headers.push((String::from_str("Content-Type"), content_type));
        assert(headers.deep_view() =~= standard.push(("Content-Type"@, content_type_of(boundary))));
        let request = Request {
            method: Method::Post,
            url: self.endpoint("upload"),
            headers,
            body: Body::Bytes(body),
            field: "message",
        };
        assert(request@ == self@.upload(boundary, all));
        request
    }

    /// Check whether the given path has an allowed extension for this account.
    ///
    /// If `free_account` is `true`, the extension of the path has to be on
    /// the list of extensions allowed for free accounts, whatever the case
    /// of its letters. If it is `false`, this method always returns `true`.
    ///
    /// For more information, see <https://neocities.org/site_files/allowed_types>.
    pub fn has_allowed_extension(free_account: bool, path: &str) -> (r: bool)
        ensures
            r == extension_allowed(free_account, unix_extension(path@)),
    {
        has_allowed_extension(free_account, path)
    }

    /// What a request gave: the value that the API returned, the error that
    /// it reported, or the failure of the transport.
    pub fn receive<T>(reply: Result<Reply<T>, String>) -> (r: Result<T, Error>)
        ensures
            match reply {
                Err(failure) => r is Err && r->Err_0@ == ErrorView::Transport(failure@),
                Ok(reply) => match reply.decoded {
                    Decoded::Success(value) => r is Ok && r->Ok_0 == value,
                    Decoded::Failure { error_type, message } => r is Err && r->Err_0@ == reported(
                        error_type,
                        message,
                    ),
                    Decoded::NotJson(detail) => r is Err && r->Err_0@ == undecoded(
                        reply.status,
                        reply.status_text@,
                        detail@,
                    ),
                    Decoded::Unexpected(detail) => r is Err && r->Err_0@ == ErrorView::Json(
                        detail@,
                    ),
                },
            },
    {
        match reply {
            Err(failure) => Err(Error::Transport(failure)),
            Ok(reply) => parse_response(reply.status, reply.status_text.as_str(), reply.decoded),
        }
    }
}

} // verus!
