use reqlang::ast::Ast;
use reqlang::errors::{ParseError, ReqlangError};
use reqlang::parser::{parse, ConfigDecodeError, DecodedConfig};
use reqlang::span::{Spanned, NO_SPAN};
use reqlang::types::http::{HttpRequest, HttpResponse, HttpStatusCode, HttpVerb, HttpVersion};
use reqlang::types::{ParsedConfig, ParsedConfigPrompt, ParsedConfigVariable, ParsedRequestFile, ReferenceType};

fn parse_text(text: &str, decoded: DecodedConfig) -> Result<ParsedRequestFile, Vec<Spanned<ReqlangError>>> {
    let ast = Ast::from(text);
    parse(&ast, decoded)
}

fn no_config() -> ParsedConfig {
    ParsedConfig { vars: None, envs: None, prompts: None, secrets: None, auth: None }
}

fn prompt(name: &str) -> ParsedConfigPrompt {
    ParsedConfigPrompt { name: name.to_string(), description: None, default: None }
}

fn var(name: &str) -> ParsedConfigVariable {
    ParsedConfigVariable { name: name.to_string(), default: None }
}

fn env(name: &str, values: &[(&str, &str)]) -> (String, Vec<(String, String)>) {
    (name.to_string(), values.iter().map(|(k, v)| (k.to_string(), v.to_string())).collect())
}

fn forbidden(name: &str, span: std::ops::Range<usize>) -> Result<ParsedRequestFile, Vec<Spanned<ReqlangError>>> {
    Err(vec![(ReqlangError::ParseError(ParseError::ForbiddenRequestHeaderNameError(name.to_string())), span)])
}

fn undefined(r: ReferenceType, span: std::ops::Range<usize>) -> Result<ParsedRequestFile, Vec<Spanned<ReqlangError>>> {
    Err(vec![(ReqlangError::ParseError(ParseError::UndefinedReferenceError(r)), span)])
}

fn request_with_header(target: &str, header: &str) -> String {
    textwrap::dedent(&format!(
        "
        ```%request
        GET {target} HTTP/1.1
        {header}: value
        ```
        "
    ))
}

#[test]
fn empty_file() {
    assert_eq!(Err(vec![(ParseError::MissingRequest.into(), NO_SPAN)]), parse_text("", None));
}

#[test]
fn request_outside_of_code_fences() {
    assert_eq!(
        Err(vec![(ParseError::MissingRequest.into(), 0..0)]),
        parse_text("GET http://example.com HTTP/1.1\n", None)
    );
}

#[test]
fn reference_undefined_variable_in_request() {
    let text = textwrap::dedent(
        "
        ```%request
        GET / HTTP/1.1
        test: {{:value}}
        ```
        ",
    );
    assert_eq!(undefined(ReferenceType::Variable("value".to_string()), 13..44), parse_text(&text, None));
}

#[test]
fn reference_undefined_prompt_in_request() {
    let text = textwrap::dedent(
        "
        ```%request
        GET / HTTP/1.1
        test: {{?value}}
        ```
    ",
    );
    assert_eq!(undefined(ReferenceType::Prompt("value".to_string()), 13..44), parse_text(&text, None));
}

#[test]
fn reference_undefined_secret_in_request() {
    let text = textwrap::dedent(
        "
        ```%request
        GET / HTTP/1.1
        test: {{!value}}
        ```
        ",
    );
    assert_eq!(undefined(ReferenceType::Secret("value".to_string()), 13..44), parse_text(&text, None));
}

fn response_reference(reference: &str) -> String {
    textwrap::dedent(&format!(
        "
        ```%request
        GET / HTTP/1.1
        ```

        ```%response
        HTTP/1.1 200 OK
        test: {{{{{reference}}}}}
        ```
        "
    ))
}

#[test]
fn reference_undefined_variable_in_response() {
    let text = response_reference(":value");
    assert_eq!(undefined(ReferenceType::Variable("value".to_string()), 46..78), parse_text(&text, None));
}

#[test]
fn reference_undefined_prompt_in_reponse() {
    let text = response_reference("?value");
    assert_eq!(undefined(ReferenceType::Prompt("value".to_string()), 46..78), parse_text(&text, None));
}

#[test]
fn reference_undefined_secret_in_response() {
    let text = response_reference("!value");
    assert_eq!(undefined(ReferenceType::Secret("value".to_string()), 46..78), parse_text(&text, None));
}

#[test]
fn unused_variable() {
    let text = textwrap::dedent(
        r#"
        ```%config
        [[vars]]
        name = "base_url"
        ```

        ```%request
        GET http://example.com HTTP/1.1
        ```
        "#,
    );
    let config = || ParsedConfig { vars: Some(vec![var("base_url")]), ..no_config() };
    assert_eq!(
        Err(vec![
            (ParseError::VariableNotDefinedInAnyEnvironment("base_url".to_string()).into(), 12..38),
            (ParseError::UnusedValueError(ReferenceType::Variable("base_url".to_string())).into(), 12..38),
        ]),
        parse_text(&text, Some(Ok(config())))
    );
}

#[test]
fn unused_prompt() {
    let text = textwrap::dedent(
        "
        ```%config
        [[prompts]]
        name = \"base_url\"
        ```

        ```%request
        GET http://example.com HTTP/1.1
        ```
        ",
    );
    let config = || ParsedConfig { prompts: Some(vec![prompt("base_url")]), ..no_config() };
    assert_eq!(
        Err(vec![(
            ReqlangError::ParseError(ParseError::UnusedValueError(ReferenceType::Prompt("base_url".to_string()))),
            12..41
        )]),
        parse_text(&text, Some(Ok(config())))
    );
}

#[test]
fn unused_secret() {
    let text = textwrap::dedent(
        "
        ```%config
        secrets = [\"base_url\"]
        ```

        ```%request
        GET http://example.com HTTP/1.1
        ```
        ",
    );
    let config = || ParsedConfig { secrets: Some(vec!["base_url".to_string()]), ..no_config() };
    assert_eq!(
        Err(vec![(
            ReqlangError::ParseError(ParseError::UnusedValueError(ReferenceType::Secret("base_url".to_string()))),
            12..34
        )]),
        parse_text(&text, Some(Ok(config())))
    );
}

#[test]
fn value_mentioned_only_as_text_in_an_expression_is_unused() {
    let text = textwrap::dedent(
        "
        ```%config
        secrets = [\"token\"]
        ```

        ```%request
        GET / HTTP/1.1
        x-token: {(id token)}
        ```
        ",
    );
    let config = || ParsedConfig { secrets: Some(vec!["token".to_string()]), ..no_config() };
    assert_eq!(
        Err(vec![(
            ReqlangError::ParseError(ParseError::UnusedValueError(ReferenceType::Secret("token".to_string()))),
            12..31
        )]),
        parse_text(&text, Some(Ok(config())))
    );
}

#[test]
fn value_referenced_inside_an_expression_is_used() {
    let text = textwrap::dedent(
        "
        ```%config
        secrets = [\"token\"]
        ```

        ```%request
        GET / HTTP/1.1
        x-token: {(id !token)}
        ```
        ",
    );
    let config = || ParsedConfig { secrets: Some(vec!["token".to_string()]), ..no_config() };
    let parsed = parse_text(&text, Some(Ok(config()))).unwrap();
    assert_eq!(1, parsed.exprs.len());
    assert_eq!(
        vec![ReferenceType::Secret("token".to_string())],
        parsed.refs.iter().map(|r| r.0.clone()).collect::<Vec<_>>()
    );
}

#[test]
fn forbidden_header_host() {
    let text = textwrap::dedent(
        "
        ```%request
        GET / HTTP/1.1
        host: example.com
        ```
        ",
    );
    assert_eq!(forbidden("host", 13..45), parse_text(&text, None));
}

#[test]
fn forbidden_header_host_capitalized() {
    let text = textwrap::dedent(
        "
        ```%request
        GET / HTTP/1.1
        Host: example.com
        ```
        ",
    );
    assert_eq!(forbidden("host", 13..45), parse_text(&text, None));
}

#[test]
fn forbidden_header_host_mixed_capitialization() {
    let text = textwrap::dedent(
        "
        ```%request
        GET / HTTP/1.1
        HoST: example.com
        ```
        ",
    );
    assert_eq!(forbidden("host", 13..45), parse_text(&text, None));
}

#[test]
fn forbidden_header_accept_charset() {
    let text = request_with_header("https://example.com/", "accept-charset");
    assert_eq!(forbidden("accept-charset", 13..68), parse_text(&text, None));
}

#[test]
fn forbidden_header_accept_encoding() {
    let text = request_with_header("https://example.com/", "accept-encoding");
    assert_eq!(forbidden("accept-encoding", 13..69), parse_text(&text, None));
}

#[test]
fn forbidden_header_acr_headers() {
    let text = request_with_header("https://example.com/", "access-control-request-headers");
    assert_eq!(forbidden("access-control-request-headers", 13..84), parse_text(&text, None));
}

#[test]
fn forbidden_header_acr_method() {
    let text = request_with_header("https://example.com/", "access-control-request-method");
    assert_eq!(forbidden("access-control-request-method", 13..83), parse_text(&text, None));
}

#[test]
fn forbidden_header_connection() {
    let text = request_with_header("https://example.com/", "connection");
    assert_eq!(forbidden("connection", 13..64), parse_text(&text, None));
}

#[test]
fn forbidden_header_content_length() {
    let text = request_with_header("https://example.com/", "content-length");
    assert_eq!(forbidden("content-length", 13..68), parse_text(&text, None));
}

#[test]
fn forbidden_header_cookie() {
    let text = request_with_header("https://example.com/", "cookie");
    assert_eq!(forbidden("cookie", 13..60), parse_text(&text, None));
}

#[test]
fn forbidden_header_date() {
    let text = request_with_header("https://example.com/", "date");
    assert_eq!(forbidden("date", 13..58), parse_text(&text, None));
}

#[test]
fn forbidden_header_dnt() {
    let text = request_with_header("https://example.com/", "dnt");
    assert_eq!(forbidden("dnt", 13..57), parse_text(&text, None));
}

#[test]
fn forbidden_header_expect() {
    let text = request_with_header("https://example.com/", "expect");
    assert_eq!(forbidden("expect", 13..60), parse_text(&text, None));
}

#[test]
fn forbidden_header_keep_alive() {
    let text = request_with_header("https://example.com/", "keep-alive");
    assert_eq!(forbidden("keep-alive", 13..64), parse_text(&text, None));
}

#[test]
fn forbidden_header_origin() {
    let text = request_with_header("https://example.com/", "origin");
    assert_eq!(forbidden("origin", 13..60), parse_text(&text, None));
}

#[test]
fn forbidden_header_permission_policy() {
    let text = request_with_header("https://example.com/", "permission-policy");
    assert_eq!(forbidden("permission-policy", 13..71), parse_text(&text, None));
}

#[test]
fn forbidden_header_te() {
    let text = request_with_header("https://example.com/", "te");
    assert_eq!(forbidden("te", 13..56), parse_text(&text, None));
}

#[test]
fn forbidden_header_trailer() {
    let text = request_with_header("https://example.com/", "trailer");
    assert_eq!(forbidden("trailer", 13..61), parse_text(&text, None));
}

#[test]
fn forbidden_header_transfer_encoding() {
    let text = request_with_header("https://example.com/", "transfer-encoding");
    assert_eq!(forbidden("transfer-encoding", 13..71), parse_text(&text, None));
}

#[test]
fn forbidden_header_upgrade() {
    let text = request_with_header("https://example.com/", "upgrade");
    assert_eq!(forbidden("upgrade", 13..61), parse_text(&text, None));
}

#[test]
fn forbidden_header_via() {
    let text = request_with_header("https://example.com/", "via");
    assert_eq!(forbidden("via", 13..57), parse_text(&text, None));
}

#[test]
fn invalid_config_syntax_error_incomplete_table() {
    let text = textwrap::dedent(
        r#"
        ```%config
        [[vars]]
        name = "body"

        [envs.dev.body = 123
        ```

        ```%request
        GET https://example.com/ HTTP/1.1
        ```
        "#,
    );
    // The decoder reports the error at offset 39 of the config's text.
    let decoded = Some(Err(ConfigDecodeError {
        message: "invalid table header\nexpected `.`, `]`".to_string(),
        span: Some(39..40),
    }));
    assert_eq!(
        Err(vec![(
            ReqlangError::ParseError(ParseError::InvalidConfigError {
                message: "invalid table header\nexpected `.`, `]`".to_string()
            }),
            51..52
        )]),
        parse_text(&text, decoded)
    );
}

#[test]
fn invalid_config_syntax_error_invalid_key_name() {
    let text = textwrap::dedent(
        "
        ```%config
        /123=132
        ```

        ```%request
        GET https://example.com/ HTTP/1.1
        ```
        ",
    );
    let decoded = Some(Err(ConfigDecodeError { message: "invalid key".to_string(), span: Some(0..1) }));
    assert_eq!(
        Err(vec![(ReqlangError::ParseError(ParseError::InvalidConfigError { message: "invalid key".to_string() }), 12..13)]),
        parse_text(&text, decoded)
    );
}

#[test]
fn just_request_ends_with_single_newline() {
    let text = textwrap::dedent(
        "
        ```%request
        GET https://example.com/ HTTP/1.1
        ```
        ",
    );
    assert_eq!(
        Ok(ParsedRequestFile {
            config: None,
            request: (
                HttpRequest {
                    verb: HttpVerb::get(),
                    target: "https://example.com/".to_string(),
                    http_version: "1.1".into(),
                    headers: vec![],
                    body: Some("".to_string())
                },
                13..46
            ),
            response: None,
            refs: vec![],
            exprs: vec![],
        }),
        parse_text(&text, None)
    );
}

#[test]
fn response_with_no_newline() {
    let text = textwrap::dedent(
        "
        ```%request
        GET http://example.com HTTP/1.1
        ```

        ```%response
        HTTP/1.1 200 OK
        ```
        ",
    );
    assert_eq!(
        Ok(ParsedRequestFile {
            config: None,
            request: (
                HttpRequest {
                    verb: HttpVerb::get(),
                    target: "http://example.com".to_string(),
                    http_version: "1.1".into(),
                    headers: vec![],
                    body: Some("".to_string())
                },
                13..44
            ),
            response: Some((
                HttpResponse {
                    http_version: HttpVersion::one_point_one(),
                    status_code: HttpStatusCode::new(200),
                    status_text: "OK".to_owned(),
                    headers: vec![],
                    body: Some("".to_string())
                },
                63..78
            )),
            refs: vec![],
            exprs: vec![],
        }),
        parse_text(&text, None)
    );
}

#[test]
fn template_reference_in_config() {
    let text = textwrap::dedent(
        r#"
        ```%config
        [[vars]]
        name = "foo"

        [[vars]]
        name = "bar"

        [envs.dev]
        foo = "test!"
        bar = "{{:foo}}"
        ```

        ```%request
        GET http://example.com?value={{:bar}} HTTP/1.1
        ```
        "#,
    );
    let config = || ParsedConfig {
        vars: Some(vec![var("foo"), var("bar")]),
        envs: Some(vec![env("dev", &[("foo", "test!"), ("bar", "{{:foo}}")])]),
        ..no_config()
    };
    assert_eq!(
        Ok(ParsedRequestFile {
            config: Some((config(), 12..99)),
            request: (
                HttpRequest {
                    verb: HttpVerb::get(),
                    target: "http://example.com?value={{:bar}}".to_string(),
                    http_version: "1.1".into(),
                    headers: vec![],
                    body: Some("".to_string())
                },
                117..163
            ),
            response: None,
            refs: vec![
                (ReferenceType::Variable("bar".to_string()), 117..163),
                (ReferenceType::Variable("foo".to_string()), 12..99),
            ],
            exprs: vec![],
        }),
        parse_text(&text, Some(Ok(config())))
    );
}

#[test]
fn full_request_file() {
    let text = textwrap::dedent(
        r#"
        ```%config
        secrets = ["api_key"]

        [[vars]]
        name = "query_value"
        
        [envs.dev]
        query_value = "dev_value"
        [envs.prod]
        query_value = "prod_value"

        [[prompts]]
        name = "test_value"
        
        [[prompts]]
        name = "expected_response_body"

        ```

        ```%request
        POST /?query={{:query_value}} HTTP/1.1
        x-test: {{?test_value}}
        x-api-key: {{!api_key}}
        x-provider: {{@provider}}

        [1, 2, 3]
        ```

        ```%response
        HTTP/1.1 200 OK

        {{?expected_response_body}}

        ```
        "#,
    );
    let config = || ParsedConfig {
        vars: Some(vec![var("query_value")]),
        envs: Some(vec![env("dev", &[("query_value", "dev_value")]), env("prod", &[("query_value", "prod_value")])]),
        prompts: Some(vec![prompt("test_value"), prompt("expected_response_body")]),
        secrets: Some(vec!["api_key".to_string()]),
        auth: None,
    };
    assert_eq!(
        Ok(ParsedRequestFile {
            request: (
                HttpRequest {
                    verb: HttpVerb::post(),
                    target: "/?query={{:query_value}}".to_string(),
                    http_version: "1.1".into(),
                    headers: vec![
                        ("x-test".to_string(), "{{?test_value}}".to_string()),
                        ("x-api-key".to_string(), "{{!api_key}}".to_string()),
                        ("x-provider".to_string(), "{{@provider}}".to_string()),
                    ],
                    body: Some("[1, 2, 3]\n\n".to_string())
                },
                238..361
            ),
            response: Some((
                HttpResponse {
                    http_version: "1.1".into(),
                    status_code: HttpStatusCode::new(200),
                    status_text: "OK".to_string(),
                    headers: vec![],
                    body: Some("{{?expected_response_body}}\n\n\n".to_string())
                },
                380..425
            )),
            config: Some((config(), 12..220)),
            refs: vec![
                (ReferenceType::Variable("query_value".to_string()), 238..361),
                (ReferenceType::Prompt("test_value".to_string()), 238..361),
                (ReferenceType::Secret("api_key".to_string()), 238..361),
                (ReferenceType::Provider("provider".to_string()), 238..361),
                (ReferenceType::Prompt("expected_response_body".to_string()), 380..425)
            ],
            exprs: vec![],
        }),
        parse_text(&text, Some(Ok(config())))
    );
}

#[test]
fn markdown_request_file() {
    let text = textwrap::dedent(
        "
        # Request File As Markdown

        - Request files are also markdown files.
        - [Configuration](#config), [Request](#request), and [Response](#response) are defined using code blocks.
        - Everything else is considered a comment.

        ## Config

        Use a `%config` code block to define the configuration.

        ```%config
        [[prompts]]
        name = \"status_code\"
        description = \"Status code the response will return\"
        ```

        ## Request

        Use a `%request` code block to define the request.

        ```%request
        GET https://httpbin.org/status/{{?status_code}} HTTP/1.1
        ```

        ## Response

        Use a `%response` code block to define the response.

        ```%response
        HTTP/1.1 200 OK
        content-type: application/json

        ```
        ",
    );
    let config = || ParsedConfig {
        prompts: Some(vec![ParsedConfigPrompt {
            name: "status_code".to_string(),
            description: Some("Status code the response will return".to_string()),
            default: None,
        }]),
        ..no_config()
    };
    assert_eq!(
        Ok(ParsedRequestFile {
            config: Some((config(), 299..384)),
            request: (
                HttpRequest {
                    verb: HttpVerb::get(),
                    target: String::from("https://httpbin.org/status/{{?status_code}}"),
                    http_version: HttpVersion::one_point_one(),
                    headers: vec![],
                    body: Some(String::default())
                },
                466..522
            ),
            response: Some((
                HttpResponse {
                    http_version: HttpVersion::one_point_one(),
                    status_code: HttpStatusCode::new(200),
                    status_text: "OK".to_owned(),
                    headers: vec![("content-type".to_string(), "application/json".to_string())],
                    body: Some("\n".to_owned())
                },
                608..655
            )),
            refs: vec![(ReferenceType::Prompt(String::from("status_code")), 466..522)],
            exprs: vec![],
        }),
        parse_text(&text, Some(Ok(config())))
    );
}

fn value_file(with_default: bool) -> String {
    let var = if with_default { "[[vars]]\nname = \"value\"\ndefault = \"foo\"\n\n[envs.test]\n" } else { "[[vars]]\nname = \"value\"\n\n[envs.test]\nvalue = \"foo\"\n" };
    format!("```%config\n{var}```\n\n```%request\nGET https://example.com?{{{{:value}}}} HTTP/1.1\n```\n")
}

fn value_config(with_default: bool) -> ParsedConfig {
    if with_default {
        ParsedConfig {
            vars: Some(vec![ParsedConfigVariable { name: "value".to_string(), default: Some("foo".to_string()) }]),
            envs: Some(vec![env("test", &[])]),
            ..no_config()
        }
    } else {
        ParsedConfig { vars: Some(vec![var("value")]), envs: Some(vec![env("test", &[("value", "foo")])]), ..no_config() }
    }
}

fn plain_request() -> String {
    textwrap::dedent(
        "
        ```%request
        GET https://example.com HTTP/1.1
        ```
        ",
    )
}

#[test]
fn get_default_env_when_no_config_declared() {
    let parsed = parse_text(&plain_request(), None).unwrap();
    assert_eq!(None, parsed.env("default"));
}

#[test]
fn get_default_env_when_user_env_defined() {
    let parsed = parse_text(&value_file(false), Some(Ok(value_config(false)))).unwrap();
    assert_eq!(None, parsed.env("default"));
}

#[test]
fn get_user_env_when_no_config_declared() {
    let parsed = parse_text(&plain_request(), None).unwrap();
    assert_eq!(None, parsed.env("test"));
}

#[test]
fn get_user_env_when_user_env_defined() {
    let parsed = parse_text(&value_file(false), Some(Ok(value_config(false)))).unwrap();
    assert_eq!(Some(vec![("value".to_string(), "foo".to_string())]), parsed.env("test"));
}

#[test]
fn get_non_existent_env_when_user_env_defined() {
    let parsed = parse_text(&value_file(false), Some(Ok(value_config(false)))).unwrap();
    assert_eq!(None, parsed.env("doesnt_exist"));
}

#[test]
fn get_var_default_value_if_defined_but_not_in_env() {
    let parsed = parse_text(&value_file(true), Some(Ok(value_config(true)))).unwrap();
    assert_eq!(Some(vec![("value".to_string(), "foo".to_string())]), parsed.env("test"));
}
