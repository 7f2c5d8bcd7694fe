use neocities_deploy::auth::Auth;
use neocities_deploy::client::{
    Body, Client, ClientBuilderError, Method, Reply, Request, DEFAULT_BASE_URL,
    DEFAULT_USER_AGENT,
};
use neocities_deploy::error::{Error, ErrorKind};
use neocities_deploy::extensions::{has_allowed_extension, is_extension_allowed, to_lower_case};
use neocities_deploy::response::{Decoded, Info, ListEntry};

const SERVER: &str = "http://127.0.0.1:1234";

fn client() -> Client {
    Client::builder()
        .base_url(SERVER.to_owned())
        .auth(Auth::from("username:password"))
        .build()
        .unwrap()
}

fn header<'a>(request: &'a Request, name: &str) -> Option<&'a str> {
    let found: Vec<&(String, String)> = request.headers.iter().filter(|h| h.0 == name).collect();
    assert!(found.len() <= 1);
    found.first().map(|h| h.1.as_str())
}

fn assert_common_headers(request: &Request) {
    assert_eq!(header(request, "Accept"), Some("application/json"));
    assert_eq!(header(request, "Accept-Charset"), Some("utf-8"));
    assert_eq!(header(request, "Authorization"), Some("Basic dXNlcm5hbWU6cGFzc3dvcmQ="));
    assert_eq!(header(request, "User-Agent"), Some(DEFAULT_USER_AGENT));
    let names: Vec<&str> = request.headers.iter().take(4).map(|h| h.0.as_str()).collect();
    assert_eq!(names, ["User-Agent", "Accept", "Accept-Charset", "Authorization"]);
}

fn ok<T>(decoded: Decoded<T>) -> Result<Reply<T>, String> {
    Ok(Reply { status: 200, status_text: "OK".to_owned(), decoded })
}

#[test]
fn delete_ok() {
    let request = client().delete(&["hello.txt"]);
    assert_eq!(request.method, Method::Post);
    assert_eq!(request.url, format!("{}/delete", SERVER));
    assert_common_headers(&request);
    assert_eq!(request.headers.len(), 4);
    assert_eq!(
        request.body,
        Body::Form(vec![("filenames[]".to_owned(), "hello.txt".to_owned())])
    );
    assert_eq!(request.field, "message");
    let reply = ok(Decoded::Success("file(s) have been deleted".to_owned()));
    assert_eq!(Client::receive(reply).unwrap(), "file(s) have been deleted");
}

#[test]
fn delete_err() {
    let request = client().delete(&["hello.txt"]);
    assert_eq!(request.method, Method::Post);
    assert_eq!(request.url, format!("{}/delete", SERVER));
    assert_common_headers(&request);
    let reply: Result<Reply<String>, String> = ok(Decoded::Failure {
        error_type: Some("missing_files".to_owned()),
        message: Some("img1.jpg was not found on your site, canceled deleting".to_owned()),
    });
    let err = Client::receive(reply).unwrap_err();
    assert!(matches!(err, Error::Api { kind: ErrorKind::MissingFiles, .. }));
}

#[test]
fn delete_of_several_paths_has_a_field_for_each() {
    let request = client().delete(&["a.txt", "dir/b.txt", "a.txt"]);
    assert_eq!(
        request.body,
        Body::Form(vec![
            ("filenames[]".to_owned(), "a.txt".to_owned()),
            ("filenames[]".to_owned(), "dir/b.txt".to_owned()),
            ("filenames[]".to_owned(), "a.txt".to_owned()),
        ])
    );
    assert_eq!(client().delete(&[]).body, Body::Form(vec![]));
}

#[test]
fn info() {
    let request = client().info();
    assert_eq!(request.method, Method::Get);
    assert_eq!(request.url, format!("{}/info", SERVER));
    assert_common_headers(&request);
    assert_eq!(request.body, Body::Empty);
    assert_eq!(request.field, "info");
    let reply = ok(Decoded::Success(Info {
        sitename: "youpi".to_owned(),
        views: 235684,
        hits: 1487423,
        created_at: "Sat, 29 Jun 2013 10:11:38 -0000".to_owned(),
        last_updated: Some("Fri, 01 Dec 2017 18:47:51 -0000".to_owned()),
        domain: None,
        tags: vec![
            "anime".to_owned(),
            "music".to_owned(),
            "videogames".to_owned(),
            "personal".to_owned(),
            "art".to_owned(),
        ],
        latest_ipfs_hash: None,
    }));
    let info = Client::receive(reply).unwrap();
    assert_eq!(info.sitename, "youpi");
    assert_eq!(info.views, 235684);
    assert_eq!(info.hits, 1487423);
    assert_eq!(info.created_at, "Sat, 29 Jun 2013 10:11:38 -0000");
    assert_eq!(info.last_updated.unwrap(), "Fri, 01 Dec 2017 18:47:51 -0000");
    assert_eq!(info.domain, None);
    assert_eq!(info.tags, vec!["anime", "music", "videogames", "personal", "art"]);
    assert_eq!(info.latest_ipfs_hash, None);
}

#[test]
fn key_ok() {
    let request = client().key();
    assert_eq!(request.method, Method::Get);
    assert_eq!(request.url, format!("{}/key", SERVER));
    assert_common_headers(&request);
    assert_eq!(request.body, Body::Empty);
    assert_eq!(request.field, "api_key");
    let reply = ok(Decoded::Success("c6275ca833ac06c83926ccb00dff4c82".to_owned()));
    let key = Client::receive(reply).unwrap();
    assert_eq!(key, "c6275ca833ac06c83926ccb00dff4c82");
}

#[test]
fn key_err() {
    let request = client().key();
    assert_eq!(request.url, format!("{}/key", SERVER));
    assert_common_headers(&request);
    let reply: Result<Reply<String>, String> = ok(Decoded::Failure {
        error_type: Some("invalid_auth".to_owned()),
        message: Some(
            "invalid credentials - please check your username and password (or your api key)"
                .to_owned(),
        ),
    });
    let key = Client::receive(reply).unwrap_err();
    assert!(matches!(key, Error::Api { kind: ErrorKind::InvalidAuth, .. }));
}

fn record(path: &str, size: Option<u64>, hash: Option<&str>) -> ListEntry {
    ListEntry {
        path: path.to_owned(),
        is_directory: size.is_none(),
        updated_at: "Sat, 13 Feb 2016 03:04:00 -0000".to_owned(),
        size,
        sha1_hash: hash.map(|h| h.to_owned()),
    }
}

#[test]
fn list() {
    let request = client().list();
    assert_eq!(request.method, Method::Get);
    assert_eq!(request.url, format!("{}/list", SERVER));
    assert_common_headers(&request);
    assert_eq!(request.body, Body::Empty);
    assert_eq!(request.field, "files");
    let reply = ok(Decoded::Success(vec![
        record("index.html", Some(1023), Some("c8aac06f343c962a24a7eb111aad739ff48b7fb1")),
        record("not_found.html", Some(271), Some("cfdf0bda2557c322be78302da23c32fec72ffc0b")),
        record("images", None, None),
        record("images/cat.png", Some(16793), Some("41fe08fc0dd44e79f799d03ece903e62be25dc7d")),
    ]));
    let list = Client::receive(reply).unwrap();
    assert_eq!(list.len(), 4);
    assert_eq!(list[0].path, "index.html");
    assert!(!list[0].is_directory);
    assert_eq!(list[0].size, Some(1023));
    assert_eq!(list[0].updated_at, "Sat, 13 Feb 2016 03:04:00 -0000");
    assert_eq!(list[0].sha1_hash.clone().unwrap(), "c8aac06f343c962a24a7eb111aad739ff48b7fb1");
    assert_eq!(list[1].path, "not_found.html");
    assert!(!list[1].is_directory);
    assert_eq!(list[1].size, Some(271));
    assert_eq!(list[1].updated_at, "Sat, 13 Feb 2016 03:04:00 -0000");
    assert_eq!(list[1].sha1_hash.clone().unwrap(), "cfdf0bda2557c322be78302da23c32fec72ffc0b");
    assert_eq!(list[2].path, "images");
    assert!(list[2].is_directory);
    assert_eq!(list[2].size, None);
    assert_eq!(list[2].updated_at, "Sat, 13 Feb 2016 03:04:00 -0000");
    assert_eq!(list[2].sha1_hash, None);
    assert_eq!(list[3].path, "images/cat.png");
    assert!(!list[3].is_directory);
    assert_eq!(list[3].size, Some(16793));
    assert_eq!(list[3].updated_at, "Sat, 13 Feb 2016 03:04:00 -0000");
    assert_eq!(list[3].sha1_hash.clone().unwrap(), "41fe08fc0dd44e79f799d03ece903e62be25dc7d");
}

/// The boundary of a content type: eight dashes or more, then 32 characters
/// of the URL-safe Base64 alphabet.
fn boundary_of(content_type: &str) -> &str {
    let boundary = content_type.strip_prefix("multipart/form-data; boundary=").unwrap();
    let tail: String = boundary.chars().rev().take(32).collect();
    assert_eq!(tail.chars().count(), 32);
    assert!(tail.chars().all(|c| c.is_ascii_alphanumeric() || c == '-' || c == '_'));
    let head = &boundary[..boundary.len() - 32];
    assert!(head.len() >= 8);
    assert!(head.chars().all(|c| c == '-'));
    boundary
}

#[test]
fn upload_ok() {
    let content = b"Hello, world!\n";
    let request = client().upload(&[("hello.txt", content), ("hello1.txt", content)]);
    assert_eq!(request.method, Method::Post);
    assert_eq!(request.url, format!("{}/upload", SERVER));
    assert_common_headers(&request);
    assert_eq!(request.headers.len(), 5);
    assert_eq!(request.headers[4].0, "Content-Type");
    assert_eq!(request.field, "message");
    let boundary = boundary_of(header(&request, "Content-Type").unwrap());
    let expected = format!(
        "--{b}\r\n\
         Content-Disposition: form-data; name=\"hello.txt\"; filename=\"file\"\r\n\
         Content-Type: application/octet-stream\r\n\
         \r\n\
         Hello, world!\n\r\n\
         --{b}\r\n\
         Content-Disposition: form-data; name=\"hello1.txt\"; filename=\"file\"\r\n\
         Content-Type: application/octet-stream\r\n\
         \r\n\
         Hello, world!\n\r\n\
         --{b}--\r\n",
        b = boundary
    );
    assert_eq!(request.body, Body::Bytes(expected.into_bytes()));
    let reply = ok(Decoded::Success("your file(s) have been successfully uploaded".to_owned()));
    Client::receive(reply).unwrap();
}

#[test]
fn upload_of_nothing_is_the_closing_line() {
    let request = client().upload(&[]);
    let boundary = boundary_of(header(&request, "Content-Type").unwrap());
    assert_eq!(request.body, Body::Bytes(format!("--{}--\r\n", boundary).into_bytes()));
}

#[test]
fn upload_carries_any_bytes() {
    let content: Vec<u8> = (0..=255).collect();
    let request = client().upload(&[("bin/all.bin", &content)]);
    let boundary = boundary_of(header(&request, "Content-Type").unwrap());
    let mut expected = format!(
        "--{}\r\nContent-Disposition: form-data; name=\"bin/all.bin\"; filename=\"file\"\r\n\
         Content-Type: application/octet-stream\r\n\r\n",
        boundary
    )
    .into_bytes();
    expected.extend_from_slice(&content);
    expected.extend_from_slice(format!("\r\n--{}--\r\n", boundary).as_bytes());
    assert_eq!(request.body, Body::Bytes(expected));
}

#[test]
fn builder_has_defaults_and_needs_auth() {
    let client = Client::builder().auth(Auth::from("api_key")).build().unwrap();
    let request = client.info();
    assert_eq!(request.url, format!("{}/info", DEFAULT_BASE_URL));
    assert_eq!(request.url, "https://neocities.org/api/info");
    assert_eq!(header(&request, "Authorization"), Some("Bearer api_key"));
    assert_eq!(header(&request, "User-Agent"), Some(DEFAULT_USER_AGENT));
    let client = Client::builder()
        .user_agent("tester/1.0".to_owned())
        .auth(Auth::from("k"))
        .build()
        .unwrap();
    assert_eq!(header(&client.key(), "User-Agent"), Some("tester/1.0"));
    let missing = Client::builder().base_url(SERVER.to_owned()).build();
    assert!(matches!(missing, Err(ClientBuilderError::UninitializedField("auth"))));
}

#[test]
fn transport_failure_is_handed_on() {
    let reply: Result<Reply<String>, String> = Err("connection refused".to_owned());
    assert_eq!(Client::receive(reply), Err(Error::Transport("connection refused".to_owned())));
}

#[test]
fn allowed_extensions_for_free_accounts() {
    assert!(has_allowed_extension(true, "hello.txt"));
    assert!(!has_allowed_extension(true, "hello.exe"));
    assert!(has_allowed_extension(false, "hello.exe"));
    assert!(has_allowed_extension(false, "hello"));
    assert!(!has_allowed_extension(true, "hello"));
    assert!(has_allowed_extension(true, "images/CAT.PNG"));
    assert!(has_allowed_extension(true, "a.b/c.Html"));
    assert!(!has_allowed_extension(true, "a.txt/c"));
    assert!(!has_allowed_extension(true, ".txt"));
    assert!(has_allowed_extension(true, "archive.tar.json"));
    assert!(!has_allowed_extension(true, "archive.json.gz"));
    assert!(!has_allowed_extension(true, ""));
    assert!(has_allowed_extension(true, "font.woff2"));
    assert!(has_allowed_extension(true, "first.apng"));
    assert!(has_allowed_extension(true, "last.yml"));
    // the match takes letters of either case for the same, on both sides
    assert!(has_allowed_extension(true, "x.resolveHandle"));
    assert!(has_allowed_extension(true, "x.resolvehandle"));
    assert!(has_allowed_extension(true, "did.RESOLVEHANDLE"));
    assert!(!has_allowed_extension(true, "x.resolve"));
}

#[test]
fn client_knows_the_allowed_extensions() {
    assert!(Client::has_allowed_extension(true, "hello.txt"));
    assert!(!Client::has_allowed_extension(true, "hello.exe"));
    assert!(Client::has_allowed_extension(false, "hello.exe"));
    assert!(Client::has_allowed_extension(true, "did.resolveHandle"));
}

#[test]
fn extension_is_judged_in_lower_case() {
    assert!(is_extension_allowed(true, Some("TXT")));
    assert!(is_extension_allowed(true, Some("Jpeg")));
    assert!(is_extension_allowed(true, Some("resolveHandle")));
    assert!(is_extension_allowed(true, Some("ResolveHandle")));
    assert!(!is_extension_allowed(true, Some("exe")));
    assert!(!is_extension_allowed(true, Some("")));
    assert!(!is_extension_allowed(true, None));
    assert!(is_extension_allowed(false, None));
    assert!(is_extension_allowed(false, Some("exe")));
    assert_eq!(to_lower_case("MiXeD-09_\u{c9}.Z"), "mixed-09_\u{c9}.z");
    assert_eq!(to_lower_case("@AZ[`az{"), "@az[`az{");
}
