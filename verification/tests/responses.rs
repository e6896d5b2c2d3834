use reqlang::assert_response::{assert_response, ChangeKind, DiffPiece, LineChange, ResponseDiff, ResponseDiffs};
use reqlang::export::{export, export_response, Format, RequestFormat, ResponseFormat};
use reqlang::types::http::{HttpRequest, HttpResponse, HttpStatusCode, HttpVersion};

fn response(status: u16, text: &str, headers: Vec<(&str, &str)>, body: Option<&str>) -> HttpResponse {
    HttpResponse {
        http_version: HttpVersion::one_point_one(),
        status_code: HttpStatusCode::new(status),
        status_text: text.to_string(),
        headers: headers.into_iter().map(|(k, v)| (k.to_string(), v.to_string())).collect(),
        body: body.map(|b| b.to_string()),
    }
}

#[test]
fn assert_response_test_assert_exact_matching_responses() {
    let expected = response(200, "OK", vec![("Content-Type", "application/json")], Some(r#"{"key": "value"}"#));
    let actual = response(200, "OK", vec![("Content-Type", "application/json")], Some(r#"{"key": "value"}"#));
    assert_eq!(Ok(()), assert_response(&expected, &actual))
}

#[test]
fn assert_response_test_mismatched_status() {
    let expected = response(200, "OK", vec![("Content-Type", "application/json")], Some(r#"{"key": "value"}"#));
    let actual = response(201, "CREATED", vec![("Content-Type", "application/json")], Some(r#"{"key": "value"}"#));

    assert_eq!(
        Err(ResponseDiffs(
            vec![
                ResponseDiff::StatusCode { expected: HttpStatusCode::new(200), actual: HttpStatusCode::new(201) },
                ResponseDiff::StatusText { expected: "OK".to_string(), actual: "CREATED".to_string() }
            ],
            expected.clone()
        )
        .into()),
        assert_response(&expected, &actual)
    )
}

#[test]
fn assert_response_test_missing_header() {
    let expected = response(
        200,
        "OK",
        vec![("Content-Type", "application/json"), ("X-Custom-Header", "custom-value")],
        Some(r#"{"key": "value"}"#),
    );
    let actual = response(200, "OK", vec![("Content-Type", "application/json")], Some(r#"{"key": "value"}"#));

    assert_eq!(
        Err(ResponseDiffs(vec![ResponseDiff::MissingHeader("X-Custom-Header".to_string())], expected.clone()).into()),
        assert_response(&expected, &actual)
    )
}

#[test]
fn assert_response_test_extra_header() {
    let expected = response(200, "OK", vec![("Content-Type", "application/json")], Some(r#"{"key": "value"}"#));
    let actual = response(
        200,
        "OK",
        vec![("Content-Type", "application/json"), ("X-Custom-Header", "custom-value")],
        Some(r#"{"key": "value"}"#),
    );
    assert_eq!(Ok(()), assert_response(&expected, &actual))
}

#[test]
fn assert_response_test_mismatch_header_value() {
    let expected = response(200, "OK", vec![("Content-Type", "application/json")], Some(r#"{"key": "value"}"#));
    let actual = response(200, "OK", vec![("Content-Type", "text/plain")], Some(r#"{"key": "value"}"#));

    assert_eq!(
        Err(ResponseDiffs(
            vec![ResponseDiff::MismatchHeaderValue {
                header: "Content-Type".to_string(),
                expected: "application/json".to_string(),
                actual: "text/plain".to_string(),
            }],
            expected.clone()
        )
        .into()),
        assert_response(&expected, &actual)
    )
}

#[test]
fn assert_response_test_mismatch_body_text() {
    let expected = response(200, "OK", vec![("Content-Type", "text/plain")], Some("Hello World!"));
    let actual = response(200, "OK", vec![("Content-Type", "text/plain")], Some("Greetings World!"));

    assert_eq!(
        Err(ResponseDiffs(
            vec![ResponseDiff::Body {
                expected: Some(String::from("Hello World!")),
                actual: Some(String::from("Greetings World!")),
            }],
            expected.clone()
        )
        .into()),
        assert_response(&expected, &actual)
    )
}

#[test]
fn assert_response_test_mismatch_body_none() {
    let expected = response(200, "OK", vec![("Content-Type", "text/plain")], Some("Hello World!"));
    let actual = response(200, "OK", vec![("Content-Type", "text/plain")], None);

    assert_eq!(
        Err(ResponseDiffs(
            vec![ResponseDiff::Body { expected: Some(String::from("Hello World!")), actual: None }],
            expected.clone()
        )
        .into()),
        assert_response(&expected, &actual)
    )
}

#[test]
fn response_compared_with_itself_has_no_difference() {
    let r = response(404, "Not Found", vec![("a", "1"), ("b", "2")], Some("body"));
    assert_eq!(Ok(()), assert_response(&r, &r));
}

#[test]
fn repeated_expected_header_is_compared_with_the_first_actual_one() {
    let r = response(200, "OK", vec![("a", "1"), ("a", "2")], None);
    let err = assert_response(&r, &r).unwrap_err();
    assert_eq!(
        vec![ResponseDiff::MismatchHeaderValue { header: "a".to_string(), expected: "2".to_string(), actual: "1".to_string() }],
        err.diffs()
    );
}

#[test]
fn diff_texts_show_status_line_headers_and_body() {
    let expected = response(200, "OK", vec![("x", "1"), ("y", "2")], Some("a"));
    let actual = response(201, "OK", vec![("x", "3")], Some("b"));
    let diffs = assert_response(&expected, &actual).unwrap_err();
    let texts = diffs.diff_texts();
    assert_eq!(Some(("HTTP/1.1 200 OK".to_string(), "HTTP/1.1 201 OK".to_string())), texts.first_line);
    assert_eq!(
        vec![("x: 1".to_string(), "x: 3".to_string()), ("y: ...".to_string(), String::new())],
        texts.headers
    );
    assert_eq!(Some(("a".to_string(), "b".to_string())), texts.body);
}

fn change(kind: ChangeKind, text: &str) -> DiffPiece {
    DiffPiece::Change(LineChange { kind, text: text.to_string() })
}

#[test]
fn diff_pieces_show_changed_lines() {
    let expected = response(200, "OK", vec![("x", "1"), ("y", "2")], Some("a\nsame\n"));
    let actual = response(201, "OK", vec![("x", "3")], Some("b\nsame\n"));
    let diffs = assert_response(&expected, &actual).unwrap_err();
    assert_eq!(
        vec![
            DiffPiece::LineBreak,
            change(ChangeKind::Delete, "HTTP/1.1 200 OK\n"),
            change(ChangeKind::Insert, "HTTP/1.1 201 OK\n"),
            change(ChangeKind::Delete, "x: 1\n"),
            change(ChangeKind::Insert, "x: 3\n"),
            change(ChangeKind::Delete, "y: ...\n"),
            DiffPiece::LineBreak,
            change(ChangeKind::Delete, "a\n"),
            change(ChangeKind::Insert, "b\n"),
            change(ChangeKind::Equal, "same\n"),
        ],
        diffs.diff_pieces()
    );
}

#[test]
fn format_to_curl_get_request() {
    assert_eq!(Some("curl / --http1.1 -v".to_string()), export(&HttpRequest::get("/", "1.1", vec![]), RequestFormat::CurlCommand));
}

#[test]
fn format_to_curl_get_request_with_single_header() {
    assert_eq!(
        Some("curl / --http1.1 -H \"test: value\" -v".to_string()),
        export(&HttpRequest::get("/", "1.1", vec![("test".to_string(), "value".to_string())]), RequestFormat::CurlCommand)
    );
}

#[test]
fn format_to_curl_post_request() {
    assert_eq!(
        Some("curl -X POST / --http1.1 -v".to_string()),
        export(&HttpRequest::post("/", "1.1", vec![], Some("")), RequestFormat::CurlCommand)
    );
}

#[test]
fn format_to_curl_post_request_with_single_header() {
    assert_eq!(
        Some("curl -X POST / --http1.1 -H \"test: value\" -v".to_string()),
        export(
            &HttpRequest::post("/", "1.1", vec![("test".to_string(), "value".to_string())], None),
            RequestFormat::CurlCommand
        )
    );
}

#[test]
fn format_to_curl_post_request_with_single_header_and_body() {
    assert_eq!(
        Some("curl -X POST / --http1.1 -H \"test: value\" -d 'testing' -v".to_string()),
        export(
            &HttpRequest::post("/", "1.1", vec![("test".to_string(), "value".to_string())], Some("testing")),
            RequestFormat::CurlCommand
        )
    );
}

#[test]
fn format_to_curl_with_two_headers() {
    assert_eq!(
        Some("curl -X PUT /x --http1.1 -H \"a: 1\" -H \"b: 2\" -v".to_string()),
        export(
            &HttpRequest {
                verb: "PUT".into(),
                target: "/x".to_string(),
                http_version: "1.1".into(),
                headers: vec![("a".to_string(), "1".to_string()), ("b".to_string(), "2".to_string())],
                body: None,
            },
            RequestFormat::CurlCommand
        )
    );
}

#[test]
fn format_to_http_get_request() {
    assert_eq!(Some("GET / HTTP/1.1\n".to_string()), export(&HttpRequest::get("/", "1.1", vec![]), RequestFormat::HttpMessage));
}

#[test]
fn format_to_http_post_request() {
    assert_eq!(
        Some("POST / HTTP/1.1\n\n[1, 2, 3]\n".to_string()),
        export(&HttpRequest::post("/", "1.1", vec![], Some("[1, 2, 3]\n")), RequestFormat::HttpMessage)
    );
}

#[test]
fn format_to_json_is_left_to_the_caller() {
    assert_eq!(None, export(&HttpRequest::get("/", "1.1", vec![]), RequestFormat::Json));
}

#[test]
fn format_response_to_http() {
    let r = response(200, "OK", vec![], Some(""));
    assert_eq!(Some("HTTP/1.1 200 OK\n".to_string()), export_response(&r, ResponseFormat::HttpMessage));
}

#[test]
fn format_response_to_http_with_headers() {
    let r = response(200, "OK", vec![("x-value", "123"), ("content-type", "application/json")], Some(""));
    assert_eq!(
        Some("HTTP/1.1 200 OK\nx-value: 123\ncontent-type: application/json\n".to_string()),
        export_response(&r, ResponseFormat::HttpMessage)
    );
}

#[test]
fn format_response_to_return_the_body() {
    let r = response(200, "OK", vec![], Some("response body\n"));
    assert_eq!(Some("response body\n".to_string()), export_response(&r, ResponseFormat::Body));
}

#[test]
fn format_names_read_back() {
    for f in [RequestFormat::HttpMessage, RequestFormat::CurlCommand, RequestFormat::Json] {
        assert_eq!(Ok(f), RequestFormat::from_name(f.as_str()));
    }
    for f in [ResponseFormat::HttpMessage, ResponseFormat::Json, ResponseFormat::Body] {
        assert_eq!(Ok(f), ResponseFormat::from_name(f.as_str()));
    }
    assert_eq!(Err("Unknown format: xml".to_string()), RequestFormat::from_name("xml"));
    assert_eq!(Err("Unknown format: curl".to_string()), ResponseFormat::from_name("curl"));
    assert_eq!(Ok(Format::CurlCommand), "curl".parse::<Format>());
    assert_eq!(Format::HttpMessage, Format::default());
    assert_eq!(RequestFormat::Json, RequestFormat::default());
}

fn differences(expected: &HttpResponse, actual: &HttpResponse) -> Result<(), Vec<ResponseDiff>> {
    assert_response(expected, actual).map_err(|d| d.diffs())
}

#[test]
fn lib_test_assert_exact_matching_responses() {
    let expected = response(200, "OK", vec![("Content-Type", "application/json")], Some(r#"{"key": "value"}"#));
    let actual = response(200, "OK", vec![("Content-Type", "application/json")], Some(r#"{"key": "value"}"#));
    assert_eq!(Ok(()), differences(&expected, &actual))
}

#[test]
fn lib_test_mismatched_status() {
    let expected = response(200, "OK", vec![("Content-Type", "application/json")], Some(r#"{"key": "value"}"#));
    let actual = response(201, "CREATED", vec![("Content-Type", "application/json")], Some(r#"{"key": "value"}"#));
    assert_eq!(
        Err(vec![
            ResponseDiff::StatusCode { expected: HttpStatusCode::new(200), actual: HttpStatusCode::new(201) },
            ResponseDiff::StatusText { expected: "OK".to_string(), actual: "CREATED".to_string() }
        ]),
        differences(&expected, &actual)
    )
}

#[test]
fn lib_test_missing_header() {
    let expected = response(
        200,
        "OK",
        vec![("Content-Type", "application/json"), ("X-Custom-Header", "custom-value")],
        Some(r#"{"key": "value"}"#),
    );
    let actual = response(200, "OK", vec![("Content-Type", "application/json")], Some(r#"{"key": "value"}"#));
    assert_eq!(Err(vec![ResponseDiff::MissingHeader("X-Custom-Header".to_string())]), differences(&expected, &actual))
}

#[test]
fn lib_test_extra_header() {
    let expected = response(200, "OK", vec![("Content-Type", "application/json")], Some(r#"{"key": "value"}"#));
    let actual = response(
        200,
        "OK",
        vec![("Content-Type", "application/json"), ("X-Custom-Header", "custom-value")],
        Some(r#"{"key": "value"}"#),
    );
    assert_eq!(Ok(()), differences(&expected, &actual))
}

#[test]
fn lib_test_mismatch_header_value() {
    let expected = response(200, "OK", vec![("Content-Type", "application/json")], Some(r#"{"key": "value"}"#));
    let actual = response(200, "OK", vec![("Content-Type", "text/plain")], Some(r#"{"key": "value"}"#));
    assert_eq!(
        Err(vec![ResponseDiff::MismatchHeaderValue {
            header: "Content-Type".to_string(),
            expected: "application/json".to_string(),
            actual: "text/plain".to_string(),
        }]),
        differences(&expected, &actual)
    )
}

#[test]
fn lib_test_mismatch_body_text() {
    let expected = response(200, "OK", vec![("Content-Type", "text/plain")], Some("Hello World!"));
    let actual = response(200, "OK", vec![("Content-Type", "text/plain")], Some("Greetings World!"));
    assert_eq!(
        Err(vec![ResponseDiff::Body {
            expected: Some(String::from("Hello World!")),
            actual: Some(String::from("Greetings World!")),
        }]),
        differences(&expected, &actual)
    )
}

#[test]
fn lib_test_mismatch_body_none() {
    let expected = response(200, "OK", vec![("Content-Type", "text/plain")], Some("Hello World!"));
    let actual = response(200, "OK", vec![("Content-Type", "text/plain")], None);
    assert_eq!(
        Err(vec![ResponseDiff::Body { expected: Some(String::from("Hello World!")), actual: None }]),
        differences(&expected, &actual)
    )
}

#[test]
fn expected_response_without_body_matches_any_body() {
    let expected = response(200, "OK", vec![("a", "1")], None);
    let actual = response(200, "OK", vec![("a", "1"), ("b", "2")], Some("anything"));
    assert_eq!(Ok(()), assert_response(&expected, &actual));
}
