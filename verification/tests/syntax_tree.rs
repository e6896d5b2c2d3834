use reqlang::ast::{Ast, AstNode};
use reqlang::extract_codeblocks::{extract_codeblocks, SpannedCodeBlock};

#[test]
fn ast_test_empty_string() {
    let output = Ast::from("");
    assert_eq!(Ast(vec![]), output);
}

#[test]
fn ast_test_whitespace_string() {
    let output = Ast::from(" \n ");
    assert_eq!(Ast(vec![]), output);
}

#[test]
fn ast_test_request_without_response_or_config() {
    let input = textwrap::dedent(
        "
```%request
REQUEST
```
        ",
    );

    let ast_result = Ast::from(&input);
    assert_eq!(
        Ast(vec![
            (AstNode::Comment("\n".to_string()), 0..1),
            (AstNode::RequestBlock(("REQUEST".to_string(), 13..20)), 1..24)
        ]),
        ast_result
    );
}

#[test]
fn ast_test_request_with_response_and_empty_config() {
    let input = textwrap::dedent(
        "
```%request
REQUEST
```
```%response
RESPONSE
```
        ",
    );

    let ast_result = Ast::from(&input);
    assert_eq!(
        Ast(vec![
            (AstNode::Comment("\n".to_string()), 0..1),
            (AstNode::RequestBlock(("REQUEST".to_string(), 13..20)), 1..24),
            (AstNode::Comment("\n".to_string()), 24..25),
            (AstNode::ResponseBlock(("RESPONSE".to_string(), 38..46)), 25..50),
        ]),
        ast_result
    );
}

#[test]
fn ast_test_request_with_response_and_config() {
    let input = textwrap::dedent(
        "
```%config
CONFIG
```
```%request
REQUEST
```
```%response
RESPONSE
```
            ",
    );

    let ast_result = Ast::from(&input);
    assert_eq!(
        Ast(vec![
            (AstNode::Comment("\n".to_string()), 0..1),
            (AstNode::ConfigBlock(("CONFIG".to_string(), 12..18)), 1..22),
            (AstNode::Comment("\n".to_string()), 22..23),
            (AstNode::RequestBlock(("REQUEST".to_string(), 35..42)), 23..46),
            (AstNode::Comment("\n".to_string()), 46..47),
            (AstNode::ResponseBlock(("RESPONSE".to_string(), 60..68)), 47..72),
        ]),
        ast_result
    );
}

#[test]
fn ast_parse_request_file() {
    let source = textwrap::dedent(
        r#"
A

```%config
[[vars]]
name = "foo"

[envs]
foo = "bar"
```

B

```%request
GET https://example.com HTTP/1.1
```

C

```%response
HTTP/1.1 200 OK
content-type: application/html

<html></html>
```

D
            "#,
    );

    let ast_result = Ast::from(&source);
    assert_eq!(
        Ast(vec![
            (AstNode::Comment("\nA\n\n".to_string()), 0..4),
            (
                AstNode::ConfigBlock((
                    "[[vars]]\nname = \"foo\"\n\n[envs]\nfoo = \"bar\"".to_string(),
                    15..56
                )),
                4..60
            ),
            (AstNode::Comment("\n\nB\n\n".to_string()), 60..65),
            (
                AstNode::RequestBlock(("GET https://example.com HTTP/1.1".to_string(), 77..109)),
                65..113
            ),
            (AstNode::Comment("\n\nC\n\n".to_string()), 113..118),
            (
                AstNode::ResponseBlock((
                    textwrap::dedent(
                        r#"
                            HTTP/1.1 200 OK
                            content-type: application/html

                            <html></html>
                            "#
                    )
                    .trim()
                    .to_string(),
                    131..192
                )),
                118..196
            ),
        ]),
        ast_result
    );
}

#[test]
fn ast_accessors_find_first_blocks_and_comments() {
    let input = "intro\n```%request\nGET / HTTP/1.1\n```\n";
    let ast = Ast::from(input);
    assert_eq!(Some(&("GET / HTTP/1.1".to_string(), 18..32)), ast.request());
    assert_eq!(None, ast.config());
    assert_eq!(None, ast.response());
    assert_eq!(vec![("intro\n".to_string(), 0..6)], ast.comments());
}

#[test]
fn extract_codeblocks_extract_codeblock_matching_lang() {
    let input = textwrap::dedent(
        "
```javascript
const foo = 123;
```

```test_lang
TEST
```
            ",
    );

    assert_eq!(vec![((String::from("TEST"), 50..54), 37..58)], extract_codeblocks(&input, "test_lang"));
}

#[test]
fn extract_codeblocks_extract_multiple_codeblocks_matching_lang() {
    let input = textwrap::dedent(
        "
```javascript
const foo = 123;
```

```test_lang
TEST
```

```
TEST
```

```test_lang
TEST TEST
```
            ",
    );

    assert_eq!(
        vec![((String::from("TEST"), 50..54), 37..58), ((String::from("TEST TEST"), 87..96), 74..100)],
        extract_codeblocks(&input, "test_lang")
    );
}

#[test]
fn extract_codeblocks_doesnt_exact_nonmatching_lang() {
    let input = textwrap::dedent(
        "
            ```javascript
            const foo = 123;
            ```

            ```test_lang
            TEST
            ```
            
            ```
            TEST
            ```

            ```test_lang
            TEST TEST
            ```
            ",
    );

    let expected: Vec<SpannedCodeBlock> = vec![];

    assert_eq!(expected, extract_codeblocks(&input, "nonmatching_lang"));
}

use reqlang::errors::{ParseError, ReqlangError};
use reqlang::span::NO_SPAN;
use reqlang::splitter::{split, RequestFileSplitUp};

#[test]
fn splitter_test_empty_string() {
    let output = split("");
    assert_eq!(Err(vec![(ReqlangError::ParseError(ParseError::MissingRequest), NO_SPAN)]), output);
}

#[test]
fn splitter_test_whitespace_string() {
    let output = split(" \n ");
    assert_eq!(Err(vec![(ReqlangError::ParseError(ParseError::MissingRequest), 0..3)]), output);
}

#[test]
fn splitter_test_request_without_response_or_config() {
    let input = textwrap::dedent(
        "
        ```%request
        REQUEST
        ```
        ",
    );

    assert_eq!(
        Ok(RequestFileSplitUp { request: (String::from("REQUEST\n\n"), 1..24), response: None, config: None }),
        split(&input)
    );
}

#[test]
fn splitter_test_request_with_response_and_empty_config() {
    let input = textwrap::dedent(
        "
        ```%request
        REQUEST
        ```

        ```%response
        RESPONSE
        ```
        ",
    );

    assert_eq!(
        Ok(RequestFileSplitUp {
            request: (String::from("REQUEST\n\n"), 1..24),
            response: Some((String::from("RESPONSE\n\n"), 26..51)),
            config: None
        }),
        split(&input)
    );
}

#[test]
fn splitter_test_request_with_response_and_config() {
    let input = textwrap::dedent(
        "
        ```%config
        CONFIG
        ```

        ```%request
        REQUEST
        ```

        ```%response
        RESPONSE
        ```
        ",
    );

    assert_eq!(
        Ok(RequestFileSplitUp {
            request: (String::from("REQUEST\n\n"), 24..47),
            response: Some((String::from("RESPONSE\n\n"), 49..74)),
            config: Some((String::from("CONFIG"), 1..22))
        }),
        split(&input)
    );
}

use reqlang::ast::{ast, Node, AST};

#[test]
fn tree_parse_request_file() {
    let source = textwrap::dedent(
        r#"
            A

            ```%config
            vars = ["foo"]

            [envs]
            foo = "bar"
            ```

            B

            ```%request
            GET https://example.com HTTP/1.1
            ```

            C

            ```%response
            HTTP/1.1 200 OK
            content-type: application/html

            <html></html>
            ```

            D
            "#,
    );

    let ast_result = ast(&source);
    assert_eq!(
        Ok(AST::new(vec![
            (Node::comment("\nA\n\n"), 0..4),
            (
                Node::ConfigBlock((
                    textwrap::dedent(
                        r#"
                            vars = ["foo"]

                            [envs]
                            foo = "bar"
                            "#
                    )
                    .trim()
                    .to_string(),
                    15..50
                )),
                4..53
            ),
            (Node::comment("\n\nB\n\n"), 53..58),
            (Node::RequestBlock(("GET https://example.com HTTP/1.1".to_string(), 70..103)), 58..106),
            (Node::comment("\n\nC\n\n"), 106..111),
            (
                Node::ResponseBlock((
                    textwrap::dedent(
                        r#"
                            HTTP/1.1 200 OK
                            content-type: application/html

                            <html></html>
                            "#
                    )
                    .trim()
                    .to_string(),
                    124..186
                )),
                111..189
            ),
        ])),
        ast_result
    );
}

#[test]
fn node_constructors_place_text_spans() {
    assert_eq!(Node::ConfigBlock(("x".to_string(), 11..7)), Node::config("x", 0..10));
    assert_eq!(Node::RequestBlock(("x".to_string(), 22..17)), Node::request("x", 10..20));
    assert_eq!(Node::ResponseBlock(("x".to_string(), 13..0)), Node::response("x", 0..3));
    let mut tree = AST::new(vec![]);
    tree.push((Node::comment("c"), 0..1));
    assert_eq!(1, tree.nodes().count());
}

use reqlang::semantic_tokens::{generate_semantic_tokens, SemanticToken};

fn comment_token(delta_line: u32, length: u32) -> SemanticToken {
    SemanticToken { delta_line, delta_start: 0, length, token_type: 0, token_modifiers_bitset: 0 }
}

#[test]
fn single_comment_node() {
    let source = "\nHello, World!\nFoo\n\nBar\n";

    let ast = Ast::new(vec![(AstNode::Comment(source.to_string()), 0..24)]);

    assert_eq!(
        vec![
            comment_token(1, 0),
            comment_token(1, 13),
            comment_token(1, 3),
            comment_token(1, 0),
            comment_token(1, 3),
        ],
        generate_semantic_tokens(&ast, source)
    );
}

#[test]
fn comment_tokens_before_a_block() {
    let source = "Foo\n```%request\nREQUEST\n```\nBar";

    let ast = Ast::from(source);

    assert_eq!(vec![comment_token(1, 3)], generate_semantic_tokens(&ast, source));
}

#[test]
fn lib_test_empty_string() {
    let output = Ast::from("");
    assert_eq!(Ast(vec![]), output);
}

#[test]
fn lib_test_whitespace_string() {
    let output = Ast::from(" \n ");
    assert_eq!(Ast(vec![]), output);
}

#[test]
fn lib_test_request_without_response_or_config() {
    let input = textwrap::dedent(
        "
```%request
REQUEST
```
        ",
    );

    let ast_result = Ast::from(&input);
    assert_eq!(
        Ast(vec![
            (AstNode::Comment("\n".to_string()), 0..1),
            (AstNode::RequestBlock(("REQUEST".to_string(), 13..20)), 1..24)
        ]),
        ast_result
    );
}

#[test]
fn lib_test_request_with_response_and_empty_config() {
    let input = textwrap::dedent(
        "
```%request
REQUEST
```
```%response
RESPONSE
```
        ",
    );

    let ast_result = Ast::from(&input);
    assert_eq!(
        Ast(vec![
            (AstNode::Comment("\n".to_string()), 0..1),
            (AstNode::RequestBlock(("REQUEST".to_string(), 13..20)), 1..24),
            (AstNode::Comment("\n".to_string()), 24..25),
            (AstNode::ResponseBlock(("RESPONSE".to_string(), 38..46)), 25..50),
        ]),
        ast_result
    );
}

#[test]
fn lib_test_request_with_response_and_config() {
    let input = textwrap::dedent(
        "
```%config
CONFIG
```
```%request
REQUEST
```
```%response
RESPONSE
```
            ",
    );

    let ast_result = Ast::from(&input);
    assert_eq!(
        Ast(vec![
            (AstNode::Comment("\n".to_string()), 0..1),
            (AstNode::ConfigBlock(("CONFIG".to_string(), 12..18)), 1..22),
            (AstNode::Comment("\n".to_string()), 22..23),
            (AstNode::RequestBlock(("REQUEST".to_string(), 35..42)), 23..46),
            (AstNode::Comment("\n".to_string()), 46..47),
            (AstNode::ResponseBlock(("RESPONSE".to_string(), 60..68)), 47..72),
        ]),
        ast_result
    );
}

#[test]
fn lib_parse_request_file() {
    let source = textwrap::dedent(
        r#"
A

```%config
vars = ["foo"]

[envs]
foo = "bar"
```

B

```%request
GET https://example.com HTTP/1.1
```

C

```%response
HTTP/1.1 200 OK
content-type: application/html

<html></html>
```

D
            "#,
    );

    let ast_result = Ast::from(&source);
    assert_eq!(
        Ast(vec![
            (AstNode::Comment("\nA\n\n".to_string()), 0..4),
            (
                AstNode::ConfigBlock((
                    "vars = [\"foo\"]\n\n[envs]\nfoo = \"bar\"".to_string(),
                    15..49
                )),
                4..53
            ),
            (AstNode::Comment("\n\nB\n\n".to_string()), 53..58),
            (AstNode::RequestBlock(("GET https://example.com HTTP/1.1".to_string(), 70..102)), 58..106),
            (AstNode::Comment("\n\nC\n\n".to_string()), 106..111),
            (
                AstNode::ResponseBlock((
                    textwrap::dedent(
                        r#"
                        HTTP/1.1 200 OK
                        content-type: application/html

                        <html></html>
                        "#
                    )
                    .trim()
                    .to_string(),
                    124..185
                )),
                111..189
            ),
        ]),
        ast_result
    );
}

#[test]
fn ast_comment_never_covers_a_leading_block() {
    let input = "```%request\nA\n```\n```%response\nB\n```";
    assert_eq!(
        Ast(vec![
            (AstNode::RequestBlock(("A".to_string(), 12..13)), 0..17),
            (AstNode::Comment("\n".to_string()), 17..18),
            (AstNode::ResponseBlock(("B".to_string(), 31..32)), 18..36),
        ]),
        Ast::from(input)
    );
}
