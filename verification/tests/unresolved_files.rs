use reqlang::errors::{ReqlangError, ResolverError};
use reqlang::resolver::RequestFileResolver;
use reqlang::span::NO_SPAN;
use reqlang::types::http::HttpRequest;
use reqlang::unresolved::{UnresolvedRequestFile, UnresolvedRequestFileConfig};

fn config() -> UnresolvedRequestFileConfig {
    UnresolvedRequestFileConfig { vars: None, envs: None, prompts: None, secrets: None, auth: None }
}

fn file(config: Option<UnresolvedRequestFileConfig>) -> UnresolvedRequestFile {
    UnresolvedRequestFile {
        config: config.map(|c| (c, NO_SPAN)),
        request: (HttpRequest::get("/", "1.1", vec![]), NO_SPAN),
        response: None,
        refs: vec![],
    }
}

#[test]
fn lib_get_prompt_names_when_defined() {
    let reqfile = file(Some(UnresolvedRequestFileConfig {
        prompts: Some(vec![("key".to_owned(), Some("value".to_owned()))]),
        ..config()
    }));
    assert_eq!(vec!["key"], reqfile.prompt_names());
}

#[test]
fn lib_get_prompt_names_when_config_defined_without_prompts() {
    let reqfile = file(Some(config()));
    let expected: Vec<&str> = vec![];
    assert_eq!(expected, reqfile.prompt_names());
}

#[test]
fn lib_get_prompt_names_when_config_undefined() {
    let reqfile = file(None);
    let expected: Vec<&str> = vec![];
    assert_eq!(expected, reqfile.prompt_names());
}

#[test]
fn lib_get_secret_names_when_defined() {
    let reqfile = file(Some(UnresolvedRequestFileConfig { secrets: Some(vec!["secret_name".to_owned()]), ..config() }));
    assert_eq!(vec!["secret_name"], reqfile.secret_names());
}

#[test]
fn lib_get_secret_names_when_config_defined_without_prompts() {
    let reqfile = file(Some(config()));
    let expected: Vec<&str> = vec![];
    assert_eq!(expected, reqfile.secret_names());
}

#[test]
fn lib_get_secret_names_when_config_undefined() {
    let reqfile = file(None);
    let expected: Vec<&str> = vec![];
    assert_eq!(expected, reqfile.secret_names());
}

#[test]
fn lib_get_envs_when_config_is_defined() {
    let reqfile = file(Some(UnresolvedRequestFileConfig {
        vars: Some(vec!["var".to_string()]),
        envs: Some(vec![
            ("dev".to_string(), vec![("var".to_string(), "dev_value".to_string())]),
            ("prod".to_string(), vec![("var".to_string(), "prod_value".to_string())]),
        ]),
        ..config()
    }));
    let mut actual = reqfile.env_names();
    actual.sort();
    assert_eq!(vec!["dev", "prod"], actual);
}

#[test]
fn lib_get_envs_when_config_is_defined_empty() {
    let reqfile = file(Some(UnresolvedRequestFileConfig {
        vars: Some(vec!["var".to_string()]),
        envs: Some(vec![]),
        ..config()
    }));
    let empty: Vec<&String> = Vec::new();
    assert_eq!(empty, reqfile.env_names());
}

#[test]
fn lib_get_envs_when_config_is_defined_but_envs_none() {
    let reqfile = file(Some(UnresolvedRequestFileConfig { vars: Some(vec!["var".to_string()]), ..config() }));
    let empty: Vec<&String> = Vec::new();
    assert_eq!(empty, reqfile.env_names());
}

#[test]
fn lib_get_envs_when_config_is_missing() {
    let reqfile = file(None);
    let empty: Vec<&String> = Vec::new();
    assert_eq!(empty, reqfile.env_names());
}

#[test]
fn lib_post_request() {
    let req = HttpRequest::post(
        "/",
        "1.1",
        vec![("host".to_string(), "https://example.com".to_string())],
        Some("[1, 2, 3]\n"),
    );
    assert_eq!("POST / HTTP/1.1\nhost: https://example.com\n\n[1, 2, 3]\n", req.to_http_message());
}

#[test]
fn lib_get_request() {
    let req = HttpRequest::get("/", "1.1", vec![("host".to_string(), "https://example.com".to_string())]);
    assert_eq!("GET / HTTP/1.1\nhost: https://example.com\n", req.to_http_message());
}

#[test]
fn lib_get_request_no_headers() {
    let req = HttpRequest::get("/", "1.1", Vec::default());
    assert_eq!("GET / HTTP/1.1\n", req.to_http_message());
}

#[test]
fn resolve_with_environment_and_values() {
    let reqfile = file(Some(UnresolvedRequestFileConfig {
        vars: Some(vec!["var".to_string()]),
        envs: Some(vec![("dev".to_string(), vec![("var".to_string(), "dev_value".to_string())])]),
        prompts: Some(vec![("p".to_string(), None)]),
        secrets: Some(vec!["s".to_string()]),
        auth: None,
    }));
    let prompts = vec![("p".to_string(), "1".to_string())];
    let secrets = vec![("s".to_string(), "2".to_string())];
    let resolved = RequestFileResolver::resolve_request_file(&reqfile, "dev", &prompts, &secrets).unwrap();
    assert_eq!("dev", resolved.config.0.env);
    assert_eq!(vec![("var".to_string(), "dev_value".to_string())], resolved.config.0.vars);
    assert_eq!(prompts, resolved.config.0.prompts);
    assert_eq!(secrets, resolved.config.0.secrets);

    let errs = RequestFileResolver::resolve_request_file(&reqfile, "prod", &prompts, &secrets).unwrap_err();
    assert_eq!(vec![(ReqlangError::ResolverError(ResolverError::InvalidEnvError("prod".to_string())), NO_SPAN)], errs);

    let errs = RequestFileResolver::resolve_request_file(&reqfile, "dev", &vec![], &vec![]).unwrap_err();
    assert_eq!(
        vec![
            (ReqlangError::ResolverError(ResolverError::PromptValueNotPassed("p".to_string())), NO_SPAN),
            (ReqlangError::ResolverError(ResolverError::SecretValueNotPassed("s".to_string())), NO_SPAN),
        ],
        errs
    );
}
