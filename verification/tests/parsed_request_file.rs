use reqlang::span::NO_SPAN;
use reqlang::types::http::HttpRequest;
use reqlang::types::{ParsedConfig, ParsedConfigPrompt, ParsedConfigVariable, ParsedRequestFile, ReferenceType};

fn config_only(config: Option<ParsedConfig>) -> ParsedRequestFile {
    ParsedRequestFile {
        config: config.map(|c| (c, NO_SPAN)),
        request: (HttpRequest::get("/", "1.1", vec![]), NO_SPAN),
        response: None,
        refs: vec![],
        exprs: vec![],
    }
}

fn empty_config() -> ParsedConfig {
    ParsedConfig { vars: None, envs: None, prompts: None, secrets: None, auth: None }
}

#[test]
fn mod_get_prompt_names_when_defined() {
    let reqfile = config_only(Some(ParsedConfig {
        prompts: Some(vec![ParsedConfigPrompt {
            name: "key".to_string(),
            description: None,
            default: Some("value".to_string()),
        }]),
        ..empty_config()
    }));

    assert_eq!(vec!["key"], reqfile.prompts());
}

#[test]
fn mod_get_prompt_names_when_config_defined_without_prompts() {
    let reqfile = config_only(Some(empty_config()));
    let expected: Vec<&str> = vec![];
    assert_eq!(expected, reqfile.prompts());
}

#[test]
fn mod_get_prompt_names_when_config_undefined() {
    let reqfile = config_only(None);
    let expected: Vec<&str> = vec![];
    assert_eq!(expected, reqfile.prompts());
}

#[test]
fn mod_get_secret_names_when_defined() {
    let reqfile = config_only(Some(ParsedConfig {
        secrets: Some(vec!["secret_name".to_owned()]),
        ..empty_config()
    }));
    assert_eq!(vec!["secret_name"], reqfile.secrets());
}

#[test]
fn mod_get_secret_names_when_config_defined_without_prompts() {
    let reqfile = config_only(Some(empty_config()));
    let expected: Vec<&str> = vec![];
    assert_eq!(expected, reqfile.secrets());
}

#[test]
fn mod_get_secret_names_when_config_undefined() {
    let reqfile = config_only(None);
    let expected: Vec<&str> = vec![];
    assert_eq!(expected, reqfile.secrets());
}

fn var(name: &str) -> ParsedConfigVariable {
    ParsedConfigVariable { name: name.to_string(), default: None }
}

#[test]
fn mod_get_envs_when_config_is_defined() {
    let reqfile = config_only(Some(ParsedConfig {
        vars: Some(vec![var("var")]),
        envs: Some(vec![
            ("dev".to_string(), vec![("var".to_string(), "dev_value".to_string())]),
            ("prod".to_string(), vec![("var".to_string(), "prod_value".to_string())]),
        ]),
        ..empty_config()
    }));

    let mut actual = reqfile.envs();
    actual.sort();
    assert_eq!(vec!["dev", "prod"], actual);
}

#[test]
fn mod_get_envs_when_config_is_defined_empty() {
    let reqfile = config_only(Some(ParsedConfig {
        vars: Some(vec![var("var")]),
        envs: Some(vec![]),
        ..empty_config()
    }));
    let empty: Vec<String> = Vec::new();
    assert_eq!(empty, reqfile.envs());
}

#[test]
fn get_envs_when_config_is_defined_empty_b() {
    let reqfile = config_only(Some(ParsedConfig {
        vars: Some(vec![var("var")]),
        envs: None,
        ..empty_config()
    }));
    let empty: Vec<String> = Vec::new();
    assert_eq!(empty, reqfile.envs());
}

#[test]
fn mod_get_envs_when_config_is_defined_but_envs_none() {
    let reqfile = config_only(Some(ParsedConfig {
        vars: Some(vec![var("var")]),
        envs: None,
        ..empty_config()
    }));
    let empty: Vec<String> = Vec::new();
    assert_eq!(empty, reqfile.envs());
}

#[test]
fn mod_get_envs_when_config_is_missing() {
    let reqfile = config_only(None);
    let empty: Vec<String> = Vec::new();
    assert_eq!(empty, reqfile.envs());
}

#[test]
fn get_default_variable_value() {
    let reqfile = ParsedRequestFile {
        config: Some((
            ParsedConfig {
                vars: Some(vec![ParsedConfigVariable {
                    name: "foo".to_string(),
                    default: Some("123".to_string()),
                }]),
                envs: Some(vec![("test".to_string(), vec![])]),
                prompts: None,
                secrets: None,
                auth: None,
            },
            NO_SPAN,
        )),
        request: (
            HttpRequest::get("/", "1.1", vec![("x-foo".to_string(), "{{:foo}}".to_string())]),
            NO_SPAN,
        ),
        response: None,
        refs: vec![(ReferenceType::Variable("foo".to_string()), NO_SPAN)],
        exprs: vec![],
    };

    assert_eq!(Some(vec![("foo".to_string(), "123".to_string())]), reqfile.env("test"));
}

#[test]
fn environment_holds_its_values_and_the_defaults() {
    let reqfile = config_only(Some(ParsedConfig {
        vars: Some(vec![
            ParsedConfigVariable { name: "a".to_string(), default: Some("da".to_string()) },
            var("b"),
            ParsedConfigVariable { name: "c".to_string(), default: Some("dc".to_string()) },
        ]),
        envs: Some(vec![(
            "dev".to_string(),
            vec![("b".to_string(), "vb".to_string()), ("c".to_string(), "vc".to_string())],
        )]),
        ..empty_config()
    }));
    let mut env = reqfile.env("dev").unwrap();
    env.sort();
    // A default value replaces the environment's own value.
    assert_eq!(
        vec![
            ("a".to_string(), "da".to_string()),
            ("b".to_string(), "vb".to_string()),
            ("c".to_string(), "dc".to_string())
        ],
        env
    );
    assert_eq!(None, reqfile.env("prod"));
}

#[test]
fn required_and_optional_prompts() {
    let reqfile = config_only(Some(ParsedConfig {
        prompts: Some(vec![
            ParsedConfigPrompt { name: "a".to_string(), description: None, default: None },
            ParsedConfigPrompt { name: "b".to_string(), description: None, default: Some("x".to_string()) },
        ]),
        ..empty_config()
    }));
    assert_eq!(vec!["a"], reqfile.required_prompts());
    assert_eq!(vec!["b"], reqfile.optional_prompts());
    assert_eq!(vec![("b".to_string(), "x".to_string())], reqfile.default_prompt_values());
}

#[test]
fn mod_post_request() {
    let req = HttpRequest::post(
        "/",
        "1.1",
        vec![("host".to_string(), "https://example.com".to_string())],
        Some("[1, 2, 3]\n"),
    );

    assert_eq!("POST / HTTP/1.1\nhost: https://example.com\n\n[1, 2, 3]\n", req.to_http_message());
}

#[test]
fn mod_get_request() {
    let req = HttpRequest::get("/", "1.1", vec![("host".to_string(), "https://example.com".to_string())]);

    assert_eq!("GET / HTTP/1.1\nhost: https://example.com\n", req.to_http_message());
}

#[test]
fn mod_get_request_no_headers() {
    let req = HttpRequest::get("/", "1.1", Vec::default());

    assert_eq!("GET / HTTP/1.1\n", req.to_http_message());
}
