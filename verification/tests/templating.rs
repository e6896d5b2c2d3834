use reqlang::errors::{ReqlangError, ResolverError};
use reqlang::parser::DecodedConfig;
use reqlang::span::NO_SPAN;
use reqlang::expression::ExprEnv;
use reqlang::templater::{template, template_checked, template_text, template_text_checked};
use reqlang::types::http::{HttpRequest, HttpResponse, HttpStatusCode};
use reqlang::types::{ParsedConfig, ParsedConfigPrompt, ParsedConfigVariable, TemplatedRequestFile};

const REQFILE: &str = r#"
```%config
secrets = ["api_key"]

[[vars]]
name = "query_value"

[envs]
[envs.dev]
query_value = "{{?test_value}}"

[envs.prod]
query_value = "{{?test_value}}"

[[prompts]]
name = "test_value"

[[prompts]]
name = "expected_response_body"
```

```%request
POST /?query={{:query_value}} HTTP/1.1
x-test: {{?test_value}}
x-api-key: {{!api_key}}

[1, 2, 3]

```

```%response
HTTP/1.1 200 OK

{{?expected_response_body}}

```
        "#;

fn no_config() -> ParsedConfig {
    ParsedConfig { vars: None, envs: None, prompts: None, secrets: None, auth: None }
}

fn var(name: &str, default: Option<&str>) -> ParsedConfigVariable {
    ParsedConfigVariable { name: name.to_string(), default: default.map(|d| d.to_string()) }
}

fn prompt(name: &str, default: Option<&str>) -> ParsedConfigPrompt {
    ParsedConfigPrompt { name: name.to_string(), description: None, default: default.map(|d| d.to_string()) }
}

fn pairs(items: &[(&str, &str)]) -> Vec<(String, String)> {
    items.iter().map(|(k, v)| (k.to_string(), v.to_string())).collect()
}

fn env(name: &str, values: &[(&str, &str)]) -> (String, Vec<(String, String)>) {
    (name.to_string(), pairs(values))
}

fn reqfile_config() -> DecodedConfig {
    Some(Ok(ParsedConfig {
        vars: Some(vec![var("query_value", None)]),
        envs: Some(vec![
            env("dev", &[("query_value", "{{?test_value}}")]),
            env("prod", &[("query_value", "{{?test_value}}")]),
        ]),
        prompts: Some(vec![prompt("test_value", None), prompt("expected_response_body", None)]),
        secrets: Some(vec!["api_key".to_string()]),
        auth: None,
    }))
}

fn get(target: &str) -> TemplatedRequestFile {
    TemplatedRequestFile {
        request: HttpRequest {
            verb: "GET".into(),
            target: target.to_string(),
            http_version: "1.1".into(),
            headers: vec![],
            body: Some("".to_string()),
        },
        response: None,
    }
}

#[test]
fn templater_full_request_file() {
    let result = template(
        REQFILE,
        Some("dev"),
        &pairs(&[("test_value", "test_value_value"), ("expected_response_body", "expected_response_body_value")]),
        &pairs(&[("api_key", "api_key_value")]),
        &vec![],
        reqfile_config(),
    );
    assert_eq!(
        Ok(TemplatedRequestFile {
            request: HttpRequest {
                verb: "POST".into(),
                target: "/?query=test_value_value".to_string(),
                http_version: "1.1".into(),
                headers: vec![
                    ("x-test".to_string(), "test_value_value".to_string()),
                    ("x-api-key".to_string(), "api_key_value".to_string()),
                ],
                body: Some("[1, 2, 3]\n\n\n".to_string())
            },
            response: Some(HttpResponse {
                http_version: "1.1".into(),
                status_code: HttpStatusCode::new(200),
                status_text: "OK".to_string(),
                headers: vec![],
                body: Some("expected_response_body_value\n\n\n".to_string())
            }),
        }),
        result
    );
}

#[test]
fn missing_secret_input() {
    let result = template(
        REQFILE,
        Some("dev"),
        &pairs(&[("test_value", "test_value_value"), ("expected_response_body", "expected_response_body_value")]),
        &vec![],
        &vec![],
        reqfile_config(),
    );
    assert_eq!(
        Err(vec![(ReqlangError::ResolverError(ResolverError::SecretValueNotPassed("api_key".to_string())), NO_SPAN)]),
        result
    );
}

#[test]
fn missing_prompt_input() {
    let result = template(
        REQFILE,
        Some("dev"),
        &pairs(&[("test_value", "test_value_value")]),
        &pairs(&[("api_key", "api_key_value")]),
        &vec![],
        reqfile_config(),
    );
    assert_eq!(
        Err(vec![(
            ReqlangError::ResolverError(ResolverError::PromptValueNotPassed("expected_response_body".to_string())),
            NO_SPAN
        )]),
        result
    );
}

#[test]
fn nested_references_in_config_not_supported() {
    let text = textwrap::dedent(
        r#"
        ```%config
        secrets = ["api_key"]

        [[vars]]
        name = "query_value"

        [[vars]]
        name = "copy"

        [envs.dev]
        query_value = "{{!api_key}}"
        copy = "{{:query_value}}"
        ```

        ```%request
        GET https://example.com/?query={{:copy}} HTTP/1.1
        ```
        "#,
    );
    let config = ParsedConfig {
        vars: Some(vec![var("query_value", None), var("copy", None)]),
        envs: Some(vec![env("dev", &[("query_value", "{{!api_key}}"), ("copy", "{{:query_value}}")])]),
        secrets: Some(vec!["api_key".to_string()]),
        ..no_config()
    };
    let result = template(&text, Some("dev"), &vec![], &pairs(&[("api_key", "api_key_value")]), &vec![], Some(Ok(config)));
    assert_eq!(Ok(get("https://example.com/?query={{!api_key}}")), result);
}

#[test]
fn resolve_env_with_no_config() {
    let text = textwrap::dedent(
        "
        ```%request
        GET https://example.com/ HTTP/1.1
        ```
        ",
    );
    assert_eq!(
        Err(vec![(ResolverError::NoEnvironmentsDefined("dev".to_string()).into(), 0..0)]),
        template(&text, Some("dev"), &vec![], &vec![], &vec![], None)
    );
}

#[test]
fn resolve_env_with_config_but_no_envs() {
    let text = textwrap::dedent(
        "
        ```%config
        ```

        ```%request
        GET https://example.com/ HTTP/1.1
        ```
        ",
    );
    assert_eq!(
        Err(vec![(ResolverError::NoEnvironmentsDefined("dev".to_string()).into(), 12..12)]),
        template(&text, Some("dev"), &vec![], &vec![], &vec![], Some(Ok(no_config())))
    );
}

#[test]
fn resolve_env_with_config_and_envs_but_none_defined() {
    let text = textwrap::dedent(
        "
        ```%config
        [envs]
        ```

        ```%request
        GET https://example.com/ HTTP/1.1
        ```
        ",
    );
    let config = ParsedConfig { envs: Some(vec![]), ..no_config() };
    assert_eq!(
        Err(vec![(ResolverError::NoEnvironmentsDefined("dev".to_string()).into(), 12..18)]),
        template(&text, Some("dev"), &vec![], &vec![], &vec![], Some(Ok(config)))
    );
}

#[test]
fn resolve_env_with_config_and_envs_but_invalid_env() {
    let text = textwrap::dedent(
        r#"
        ```%config
        [[vars]]
        name = "foo"

        [envs]
        [envs.test]
        foo = "bar"
        ```

        ```%request
        GET https://example.com/?value={{:foo}} HTTP/1.1
        ```
        "#,
    );
    let config = ParsedConfig {
        vars: Some(vec![var("foo", None)]),
        envs: Some(vec![env("test", &[("foo", "bar")])]),
        ..no_config()
    };
    assert_eq!(
        Err(vec![(ResolverError::InvalidEnvError("dev".to_string()).into(), 12..65)]),
        template(&text, Some("dev"), &vec![], &vec![], &vec![], Some(Ok(config)))
    );
}

fn prompt_file() -> String {
    textwrap::dedent(
        "
        ```%config
        [[prompts]]
        name = \"value\"
        default = \"123\"
        ```

        ```%request
        GET https://example.com/?query={{?value}} HTTP/1.1
        ```
        ",
    )
}

fn prompt_config() -> DecodedConfig {
    Some(Ok(ParsedConfig { prompts: Some(vec![prompt("value", Some("123"))]), ..no_config() }))
}

#[test]
fn use_default_prompt_value_if_defined_and_no_prompt_passed() {
    assert_eq!(
        Ok(get("https://example.com/?query=123")),
        template(&prompt_file(), None, &vec![], &vec![], &vec![], prompt_config())
    );
}

#[test]
fn use_input_prompt_value_if_defined_prompt_value_defined_and_input_prompt_passed() {
    assert_eq!(
        Ok(get("https://example.com/?query=456")),
        template(&prompt_file(), None, &pairs(&[("value", "456")]), &vec![], &vec![], prompt_config())
    );
}

#[test]
fn use_default_variable_value() {
    let text = textwrap::dedent(
        r#"
        ```%config
        [[vars]]
        name = "foo"
        default = "123"

        [[vars]]
        name = "bar"

        [envs.test]
        bar = "456"
        ```

        ```%request
        GET https://example.com/?query={{:foo}}{{:bar}} HTTP/1.1
        ```
        "#,
    );
    let config = ParsedConfig {
        vars: Some(vec![var("foo", Some("123")), var("bar", None)]),
        envs: Some(vec![env("test", &[("bar", "456")])]),
        ..no_config()
    };
    assert_eq!(
        Ok(get("https://example.com/?query=123456")),
        template(&text, Some("test"), &vec![], &vec![], &vec![], Some(Ok(config)))
    );
}

#[test]
fn provider_values_are_looked_up_by_name() {
    let text = "```%request\nGET /{{@user}} HTTP/1.1\n```\n";
    assert_eq!(
        Ok(get("/kyle")),
        template(text, None, &vec![], &vec![], &pairs(&[("user", "nobody"), ("user", "kyle")]), None)
    );
}

#[test]
fn provider_without_a_value_fails_to_evaluate() {
    let text = "```%request\nGET /{{@user}} HTTP/1.1\n```\n";
    let errs = template(text, None, &vec![], &vec![], &vec![], None).unwrap_err();
    assert_eq!(1, errs.len());
    assert_eq!(12..35, errs[0].1);
    match &errs[0].0 {
        ReqlangError::ResolverError(ResolverError::ExpressionEvaluationError(source, message)) => {
            assert_eq!("@user", source);
            assert!(!message.is_empty());
        },
        other => panic!("unexpected error {other:?}"),
    }
}

#[test]
fn chosen_environment_is_in_the_client_context() {
    let text = "```%config\nx\n```\n```%request\nGET /{{@env}}/{{:a}} HTTP/1.1\n```\n";
    let config = ParsedConfig {
        vars: Some(vec![var("a", None)]),
        envs: Some(vec![env("dev", &[("a", "1")])]),
        ..no_config()
    };
    assert_eq!(Ok(get("/dev/1")), template(text, Some("dev"), &vec![], &vec![], &vec![], Some(Ok(config))));
}

#[test]
fn expression_references_are_reported_when_they_fail() {
    let text = "```%request\nGET / HTTP/1.1\nx-a: {(id `a`)}\n```\n";
    let errs = template_text(text, None, &vec![], &vec![], &vec![], None).unwrap_err();
    assert_eq!(1, errs.len());
    match &errs[0].0 {
        ReqlangError::ResolverError(ResolverError::ExpressionEvaluationError(source, _)) => {
            assert_eq!("{(id `a`)}", source);
        },
        other => panic!("unexpected error {other:?}"),
    }
}

#[test]
fn variables_without_environment_or_providers_cannot_be_templated() {
    let text = "```%config\nx\n```\n```%request\nGET /{{:a}} HTTP/1.1\n```\n";
    let config = || ParsedConfig {
        vars: Some(vec![var("a", None)]),
        envs: Some(vec![env("dev", &[("a", "1")])]),
        ..no_config()
    };
    assert!(template_checked(text, None, &vec![], &vec![], &vec![], Some(Ok(config()))).is_none());
    assert!(template_checked(text, Some("dev"), &vec![], &vec![], &vec![], Some(Ok(config()))).is_some());
}

#[test]
fn checked_text_tells_when_a_file_cannot_be_evaluated() {
    let text = "```%config\nx\n```\n```%request\nGET /{{:a}} HTTP/1.1\n```\n";
    let config = || ParsedConfig {
        vars: Some(vec![var("a", None)]),
        envs: Some(vec![env("dev", &[("a", "1")])]),
        ..no_config()
    };
    assert_eq!(None, template_text_checked(text, None, &vec![], &vec![], &vec![], Some(Ok(config()))));
    assert_eq!(
        Some(Ok(text.replace("{{:a}}", "1"))),
        template_text_checked(text, Some("dev"), &vec![], &vec![], &vec![], Some(Ok(config())))
    );
    // Without an environment, variables take the provider values in order.
    assert_eq!(
        Some(Ok(text.replace("{{:a}}", "p"))),
        template_text_checked(text, None, &vec![], &vec![], &pairs(&[("x", "p")]), Some(Ok(config())))
    );
}

#[test]
fn client_context_names_are_added_once() {
    let mut e = ExprEnv {
        var_names: vec![],
        var_values: vec![],
        prompt_names: vec![],
        prompt_values: vec![],
        secret_names: vec![],
        secret_values: vec![],
        context_names: vec!["user".to_string()],
        context_values: vec!["kyle".to_string()],
    };
    e.add_to_client_context("env", "dev".to_string());
    assert_eq!(vec!["user".to_string(), "env".to_string()], e.context_names);
    assert_eq!(vec!["kyle".to_string(), "dev".to_string()], e.context_values);
    e.add_to_client_context("user", "other".to_string());
    assert_eq!(vec!["user".to_string(), "env".to_string()], e.context_names);
    assert_eq!(vec!["other".to_string(), "dev".to_string()], e.context_values);
}
