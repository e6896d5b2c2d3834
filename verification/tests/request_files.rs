use reqlang::ast::Ast;
use reqlang::errors::{ParseError, ReqlangError, ResolverError};
use reqlang::parser::{parse, parse_checked, ConfigDecodeError};
use reqlang::templater::{template, template_text};
use reqlang::types::http::{HttpRequest, HttpResponse, HttpStatusCode};
use reqlang::types::{
    ParsedConfig, ParsedConfigPrompt, ParsedConfigVariable, ParsedRequestFile, ReferenceType, TemplatedRequestFile,
};

fn full_file() -> String {
    textwrap::dedent(
        "
            ```%config
            vars = [\"query_value\"]
            secrets = [\"api_key\"]

            [envs.dev]
            query_value = \"dev_value\"
            [envs.prod]
            query_value = \"prod_value\"

            [[prompts]]
            name = \"test_value\"

            [[prompts]]
            name = \"expected_response_body\"

            ```

            ```%request
            POST /?query={{:query_value}} HTTP/1.1
            x-test: {{?test_value}}
            x-api-key: {{!api_key}}

            [1, 2, 3]
            ```

            ```%response
            HTTP/1.1 200 OK

            {{?expected_response_body}}

            ```
            ",
    )
}

fn full_config() -> ParsedConfig {
    ParsedConfig {
        vars: Some(vec![ParsedConfigVariable { name: "query_value".to_string(), default: None }]),
        envs: Some(vec![
            ("prod".to_string(), vec![("query_value".to_string(), "prod_value".to_string())]),
            ("dev".to_string(), vec![("query_value".to_string(), "dev_value".to_string())]),
        ]),
        prompts: Some(vec![
            ParsedConfigPrompt { name: "test_value".to_string(), description: None, default: None },
            ParsedConfigPrompt { name: "expected_response_body".to_string(), description: None, default: None },
        ]),
        secrets: Some(vec!["api_key".to_string()]),
        auth: None,
    }
}

fn pairs(items: &[(&str, &str)]) -> Vec<(String, String)> {
    items.iter().map(|(k, v)| (k.to_string(), v.to_string())).collect()
}

#[test]
fn parse_full_request_file() {
    let source = full_file();
    let ast = Ast::from(&source);

    let reqfile = parse(&ast, Some(Ok(full_config())));

    assert_eq!(
        Ok(ParsedRequestFile {
            request: (
                HttpRequest {
                    verb: "POST".into(),
                    target: "/?query={{:query_value}}".to_string(),
                    http_version: "1.1".into(),
                    headers: vec![
                        ("x-test".to_string(), "{{?test_value}}".to_string()),
                        ("x-api-key".to_string(), "{{!api_key}}".to_string()),
                    ],
                    body: Some("[1, 2, 3]\n\n".to_string())
                },
                230..327
            ),
            response: Some((
                HttpResponse {
                    http_version: "1.1".into(),
                    status_code: HttpStatusCode::new(200),
                    status_text: "OK".to_string(),
                    headers: vec![],
                    body: Some("{{?expected_response_body}}\n\n\n".to_string())
                },
                346..391
            )),
            config: Some((full_config(), 12..212)),
            refs: vec![
                (ReferenceType::Variable("query_value".to_string()), 230..327),
                (ReferenceType::Prompt("test_value".to_string()), 230..327),
                (ReferenceType::Secret("api_key".to_string()), 230..327),
                (ReferenceType::Prompt("expected_response_body".to_string()), 346..391)
            ],
            exprs: vec![],
        }),
        reqfile
    );
}

#[test]
fn template_full_request_file() {
    let source = full_file();
    let templated_reqfile = template(
        &source,
        Some("dev"),
        &pairs(&[("test_value", "test_value_value"), ("expected_response_body", "expected_response_body_value")]),
        &pairs(&[("api_key", "api_key_value")]),
        &vec![],
        Some(Ok(full_config())),
    );

    assert_eq!(
        Ok(TemplatedRequestFile {
            request: HttpRequest {
                verb: "POST".into(),
                target: "/?query=dev_value".to_string(),
                http_version: "1.1".into(),
                headers: vec![
                    ("x-test".to_string(), "test_value_value".to_string()),
                    ("x-api-key".to_string(), "api_key_value".to_string()),
                ],
                body: Some("[1, 2, 3]\n\n".to_string())
            },
            response: Some(HttpResponse {
                http_version: "1.1".into(),
                status_code: HttpStatusCode::new(200),
                status_text: "OK".to_string(),
                headers: vec![],
                body: Some("expected_response_body_value\n\n\n".to_string())
            }),
        }),
        templated_reqfile
    );
}

#[test]
fn parse_without_request_block() {
    let ast = Ast::from("just text");
    assert_eq!(Err(vec![(ReqlangError::ParseError(ParseError::MissingRequest), 0..0)]), parse(&ast, None));
}

#[test]
fn parse_reports_forbidden_headers_and_undefined_references() {
    let source = "```%request\nGET / HTTP/1.1\nHost: x\nx-a: {{:missing}}\n```\n";
    let ast = Ast::from(source);
    let errs = parse(&ast, None).unwrap_err();
    assert_eq!(
        vec![
            ReqlangError::ParseError(ParseError::ForbiddenRequestHeaderNameError("host".to_string())),
            ReqlangError::ParseError(ParseError::UndefinedReferenceError(ReferenceType::Variable(
                "missing".to_string()
            ))),
        ],
        errs.into_iter().map(|e| e.0).collect::<Vec<_>>()
    );
}

#[test]
fn parse_reports_invalid_request() {
    let source = "```%request\nGET / HTTP/1.1 x\n```\n";
    let ast = Ast::from(source);
    let errs = parse(&ast, None).unwrap_err();
    assert_eq!(1, errs.len());
    assert!(matches!(errs[0].0, ReqlangError::ParseError(ParseError::InvalidRequestError { .. })));
}

#[test]
fn parse_places_config_errors_in_the_file() {
    let source = "```%config\nvars = 1\n```\n```%request\nGET / HTTP/1.1\n```\n";
    let ast = Ast::from(source);
    let decoded = Some(Err(ConfigDecodeError { message: "invalid type".to_string(), span: Some(7..8) }));
    let errs = parse(&ast, decoded).unwrap_err();
    assert_eq!(
        vec![(ReqlangError::ParseError(ParseError::InvalidConfigError { message: "invalid type".to_string() }), 18..19)],
        errs
    );
}

#[test]
fn parse_reports_variables_without_values() {
    let source = "```%config\nx\n```\n```%request\nGET /{{:a}} HTTP/1.1\n```\n";
    let ast = Ast::from(source);
    let config = ParsedConfig {
        vars: Some(vec![ParsedConfigVariable { name: "a".to_string(), default: None }]),
        envs: Some(vec![("dev".to_string(), vec![])]),
        prompts: None,
        secrets: None,
        auth: None,
    };
    let errs = parse(&ast, Some(Ok(config))).unwrap_err();
    assert_eq!(
        vec![ReqlangError::ParseError(ParseError::VariableUndefinedInEnvironment("a".to_string(), "dev".to_string()))],
        errs.into_iter().map(|e| e.0).collect::<Vec<_>>()
    );
}

#[test]
fn parse_checked_refuses_out_of_range_status_codes() {
    let source = "```%request\nGET / HTTP/1.1\n```\n```%response\nHTTP/1.1 999 Odd\n```\n";
    let ast = Ast::from(source);
    assert!(parse_checked(&ast, None).is_none());
    let ok = "```%request\nGET / HTTP/1.1\n```\n```%response\nHTTP/1.1 204 No Content\n```\n";
    let ast = Ast::from(ok);
    let parsed = parse_checked(&ast, None).unwrap().unwrap();
    assert_eq!(204, parsed.response.unwrap().0.status_code.code());
}

#[test]
fn template_requires_known_environment_and_values() {
    let source = full_file();
    let err = template_text(&source, Some("qa"), &vec![], &vec![], &vec![], Some(Ok(full_config()))).unwrap_err();
    assert_eq!(vec![(ReqlangError::ResolverError(ResolverError::InvalidEnvError("qa".to_string())), 12..212)], err);

    let err = template_text(&source, Some("dev"), &vec![], &vec![], &vec![], Some(Ok(full_config()))).unwrap_err();
    assert_eq!(
        vec![
            ReqlangError::ResolverError(ResolverError::PromptValueNotPassed("test_value".to_string())),
            ReqlangError::ResolverError(ResolverError::PromptValueNotPassed("expected_response_body".to_string())),
            ReqlangError::ResolverError(ResolverError::SecretValueNotPassed("api_key".to_string())),
        ],
        err.into_iter().map(|e| e.0).collect::<Vec<_>>()
    );
}

#[test]
fn template_without_config_and_environment() {
    let source = "```%request\nGET / HTTP/1.1\n```\n";
    let err = template_text(source, Some("dev"), &vec![], &vec![], &vec![], None).unwrap_err();
    assert_eq!(vec![(ReqlangError::ResolverError(ResolverError::NoEnvironmentsDefined("dev".to_string())), 0..0)], err);
    assert_eq!(Ok(source.to_string()), template_text(source, None, &vec![], &vec![], &vec![], None));
}
