use neocities_deploy::error::{same, Error, ErrorKind};
use neocities_deploy::response::{parse_response, to_decimal, Decoded};

#[derive(Debug, PartialEq)]
struct Foobar {
    foo: String,
    bar: String,
}

#[test]
fn parse_success() {
    let decoded = Decoded::Success(Foobar { foo: "qux".to_owned(), bar: "baz".to_owned() });
    let foo = parse_response::<Foobar>(200, "OK", decoded).unwrap();
    assert_eq!(foo.foo, "qux");
    assert_eq!(foo.bar, "baz");
}

#[test]
fn parse_error() {
    // An error that the API reports is handed on as it is, whatever the status code.
    let decoded: Decoded<String> = Decoded::Failure {
        error_type: Some("invalid_auth".to_owned()),
        message: Some("Invalid API key".to_owned()),
    };
    let err = parse_response::<String>(401, "Unauthorized", decoded).unwrap_err();
    assert!(matches!(err, Error::Api { kind: ErrorKind::InvalidAuth, .. }));
    assert_eq!(
        err,
        Error::Api { message: "Invalid API key".to_owned(), kind: ErrorKind::InvalidAuth }
    );
}

#[test]
fn parse_invalid_json() {
    // A body that is not JSON, with a status code that is neither 4xx nor 5xx.
    let detail = "expected ident at line 1 column 2".to_owned();
    let err = parse_response::<String>(200, "OK", Decoded::NotJson(detail.clone())).unwrap_err();
    assert!(matches!(err, Error::Json { .. }));
    assert_eq!(err, Error::Json(detail));
}

#[test]
fn parse_invalid_json_error() {
    // A body that is not JSON, with a status code that is 4xx or 5xx.
    let detail = "expected ident at line 1 column 2".to_owned();
    let err = parse_response::<String>(401, "Unauthorized", Decoded::NotJson(detail)).unwrap_err();
    let Error::Api { message, kind } = err else {
        panic!("Expected an Error::Api {{ .. }}, got {:?}", err);
    };
    assert_eq!(kind, ErrorKind::Status);
    assert_eq!(message, "401 Unauthorized");
}

#[test]
fn status_stands_in_from_400_to_599_only() {
    for (status, text, is_status) in [
        (399, "Odd", false),
        (400, "Bad Request", true),
        (404, "Not Found", true),
        (500, "Internal Server Error", true),
        (599, "Odd", true),
        (600, "Odd", false),
        (0, "", false),
        (65535, "Odd", false),
    ] {
        let err = parse_response::<String>(status, text, Decoded::NotJson("bad".to_owned()))
            .unwrap_err();
        if is_status {
            assert_eq!(
                err,
                Error::Api { message: format!("{} {}", status, text), kind: ErrorKind::Status }
            );
        } else {
            assert_eq!(err, Error::Json("bad".to_owned()));
        }
    }
}

/// Decodes a body as a caller of the library does: not JSON, or JSON that
/// lacks the field, or the text of the field.
fn decode_text(field: &str, body: &str) -> Decoded<String> {
    let json = match serde_json::from_str::<serde_json::Value>(body) {
        Ok(json) => json,
        Err(e) => return Decoded::NotJson(e.to_string()),
    };
    match json.get(field).and_then(|v| v.as_str()) {
        Some(text) => Decoded::Success(text.to_owned()),
        None => Decoded::Unexpected(format!("missing field `{}`", field)),
    }
}

#[test]
fn missing_field_is_a_decode_error_whatever_the_status() {
    let decoded = decode_text("message", "{\"result\":\"success\"}");
    assert_eq!(decoded, Decoded::Unexpected("missing field `message`".to_owned()));
    let err = parse_response::<String>(500, "Internal Server Error", decoded).unwrap_err();
    assert_eq!(err, Error::Json("missing field `message`".to_owned()));
    for status in [0, 200, 399, 400, 401, 404, 499, 500, 599, 600, 65535] {
        let decoded: Decoded<String> = Decoded::Unexpected("invalid type".to_owned());
        assert_eq!(
            parse_response(status, "Any", decoded),
            Err(Error::Json("invalid type".to_owned()))
        );
    }
}

#[test]
fn body_that_is_not_json_becomes_the_status_under_4xx_and_5xx() {
    let decoded = decode_text("message", "not json");
    assert!(matches!(decoded, Decoded::NotJson(_)));
    assert_eq!(
        parse_response::<String>(500, "Internal Server Error", decoded),
        Err(Error::Api {
            message: "500 Internal Server Error".to_owned(),
            kind: ErrorKind::Status
        })
    );
    let decoded = decode_text("message", "{\"result\":\"success\",\"message\":\"done\"}");
    assert_eq!(parse_response::<String>(500, "Internal Server Error", decoded), Ok("done".to_owned()));
}

#[test]
fn reported_error_has_defaults() {
    let decoded: Decoded<String> = Decoded::Failure { error_type: None, message: None };
    assert_eq!(
        parse_response(200, "OK", decoded),
        Err(Error::Api {
            message: "No error message provided".to_owned(),
            kind: ErrorKind::Unknown
        })
    );
    let decoded: Decoded<String> =
        Decoded::Failure { error_type: Some("brand_new_error".to_owned()), message: None };
    assert!(matches!(
        parse_response(500, "Internal Server Error", decoded),
        Err(Error::Api { kind: ErrorKind::Unknown, .. })
    ));
}

#[test]
fn error_kinds_are_read_from_their_names() {
    let sent = [
        ("site_not_found", ErrorKind::SiteNotFound),
        ("invalid_auth", ErrorKind::InvalidAuth),
        ("cannot_delete_index", ErrorKind::CannotDeleteIndex),
        ("cannot_delete_site_directory", ErrorKind::CannotDeleteSiteDirectory),
        ("missing_files", ErrorKind::MissingFiles),
        ("invalid_file_type", ErrorKind::InvalidFileType),
    ];
    for (name, kind) in sent {
        assert_eq!(ErrorKind::parse(name), kind);
        assert_eq!(kind.name(), name);
    }
    for name in ["status", "unknown", "", "Invalid_Auth", "invalid_auth ", "InvalidAuth"] {
        assert_eq!(ErrorKind::parse(name), ErrorKind::Unknown);
    }
    assert_eq!(ErrorKind::Status.name(), "status");
    assert_eq!(ErrorKind::Unknown.name(), "unknown");
}

#[test]
fn errors_in_words() {
    let err = Error::Api {
        message: "invalid credentials - please check your username and password (or your api key)"
            .to_owned(),
        kind: ErrorKind::InvalidAuth,
    };
    assert_eq!(
        err.to_text(),
        "API error: invalid credentials - please check your username and password (or your api key) (invalid_auth)"
    );
    assert_eq!(Error::Json("eof".to_owned()).to_text(), "JSON error: eof");
    assert_eq!(Error::Transport("timed out".to_owned()).to_text(), "Transport error: timed out");
}

#[test]
fn numbers_in_decimal() {
    for n in [0u16, 1, 9, 10, 11, 99, 100, 101, 401, 999, 1000, 9999, 10000, 65535] {
        assert_eq!(to_decimal(n), n.to_string());
    }
}

#[test]
fn texts_are_the_same_when_their_characters_are() {
    assert!(same("", ""));
    assert!(same("abc", "abc"));
    assert!(!same("abc", "abd"));
    assert!(!same("abc", "ab"));
    assert!(!same("ab", "abc"));
}
