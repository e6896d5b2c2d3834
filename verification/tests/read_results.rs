use reqlang::assert_response::{push_change_pieces, ChangeKind, DiffPiece, LineChange};
use reqlang::ast::{Ast, AstNode};
use reqlang::errors::{ParseError, ReqlangError, ResolverError};
use reqlang::expression::ExprOutcome;
use reqlang::extract_codeblocks::{codeblocks_from, MdBlock};
use reqlang::parser::message::{
    request_from_read, response_from_read, RequestHead, RequestRead, ResponseHead, ResponseRead,
};
use reqlang::templater::apply_evaluations;
use reqlang::types::http::{HttpRequest, HttpResponse, HttpStatusCode, HttpVerb, HttpVersion};

fn code(lang: &str, value: &str, start: usize, end: usize) -> MdBlock {
    MdBlock::Code { lang: Some(lang.to_string()), value: value.to_string(), start, end }
}

#[test]
fn codeblocks_from_keeps_only_the_language() {
    let blocks = vec![
        code("%request", "GET /", 0, 18),
        MdBlock::Other,
        code("%config", "x", 20, 35),
        MdBlock::Code { lang: None, value: "plain".to_string(), start: 40, end: 52 },
        code("%request", "GET /b", 60, 79),
    ];
    assert_eq!(
        vec![(("GET /".to_string(), 12..17), 0..18), (("GET /b".to_string(), 72..78), 60..79)],
        codeblocks_from(&blocks, "%request")
    );
    assert_eq!(vec![(("x".to_string(), 31..32), 20..35)], codeblocks_from(&blocks, "%config"));
    assert!(codeblocks_from(&blocks, "%response").is_empty());
}

#[test]
fn ast_from_blocks_places_comments_between_blocks() {
    let input = "```%request\nA\n```\n```%response\nB\n```";
    let blocks = vec![code("%request", "A", 0, 17), code("%response", "B", 18, 36)];
    assert_eq!(
        Ast(vec![
            (AstNode::RequestBlock(("A".to_string(), 12..13)), 0..17),
            (AstNode::Comment("\n".to_string()), 17..18),
            (AstNode::ResponseBlock(("B".to_string(), 31..32)), 18..36),
        ]),
        Ast::from_blocks(input, &blocks)
    );
    assert_eq!(Ast::from(input), Ast::from_blocks(input, &blocks));
}

#[test]
fn request_from_complete_read() {
    let text = "POST /x HTTP/1.1\nx-a: 1\n\nbody\n\n\n".to_string();
    let read = RequestRead::Complete(RequestHead {
        method: "POST".to_string(),
        path: "/x".to_string(),
        version: 1,
        headers: vec![("x-a".to_string(), "1".to_string()), (String::new(), "dropped".to_string())],
        body_offset: 25,
    });
    let expected = HttpRequest {
        verb: HttpVerb("POST".to_string()),
        target: "/x".to_string(),
        http_version: HttpVersion::new("1.1".to_string()),
        headers: vec![("x-a".to_string(), "1".to_string())],
        body: Some("body\n\n\n".to_string()),
    };
    assert_eq!(Ok((expected, 3..9)), request_from_read(&text, read, &(3..9)));
}

#[test]
fn request_from_partial_or_invalid_read() {
    let text = "GET".to_string();
    assert_eq!(
        Err(vec![(
            ReqlangError::ParseError(ParseError::InvalidRequestError {
                message: "Unable to parse a partial request".to_string()
            }),
            1..2
        )]),
        request_from_read(&text, RequestRead::Partial, &(1..2))
    );
    assert_eq!(
        Err(vec![(
            ReqlangError::ParseError(ParseError::InvalidRequestError { message: "invalid token".to_string() }),
            0..3
        )]),
        request_from_read(&text, RequestRead::Invalid("invalid token".to_string()), &(0..3))
    );
}

#[test]
fn response_from_reads() {
    let text = "HTTP/1.0 404 Not Found\n\nmissing".to_string();
    let read = ResponseRead::Complete(ResponseHead {
        version: 0,
        code: 404,
        reason: "Not Found".to_string(),
        headers: vec![],
        body_offset: 24,
    });
    let expected = HttpResponse {
        http_version: HttpVersion::new("1.0".to_string()),
        status_code: HttpStatusCode::new(404),
        status_text: "Not Found".to_string(),
        headers: vec![],
        body: Some("missing".to_string()),
    };
    assert_eq!(Some(Ok((expected, 5..7))), response_from_read(&text, read, &(5..7)));
    assert_eq!(None, response_from_read(&text, ResponseRead::Partial, &(5..7)));
    assert_eq!(None, response_from_read(&text, ResponseRead::Invalid("bad".to_string()), &(5..7)));
}

#[test]
fn change_pieces_follow_the_changes() {
    let mut out = vec![DiffPiece::LineBreak];
    let changes = vec![
        LineChange { kind: ChangeKind::Equal, text: "a\n".to_string() },
        LineChange { kind: ChangeKind::Delete, text: "b\n".to_string() },
        LineChange { kind: ChangeKind::Insert, text: "c\n".to_string() },
    ];
    push_change_pieces(&mut out, &changes);
    assert_eq!(
        vec![
            DiffPiece::LineBreak,
            DiffPiece::Change(LineChange { kind: ChangeKind::Equal, text: "a\n".to_string() }),
            DiffPiece::Change(LineChange { kind: ChangeKind::Delete, text: "b\n".to_string() }),
            DiffPiece::Change(LineChange { kind: ChangeKind::Insert, text: "c\n".to_string() }),
        ],
        out
    );
}

#[test]
fn evaluations_replace_patterns() {
    let labels = vec![(":a".to_string(), 1..6), ("?b".to_string(), 7..12)];
    let patterns = vec!["{{:a}}".to_string(), "{{?b}}".to_string()];
    let outcomes = vec![ExprOutcome::Text("1".to_string()), ExprOutcome::Text("2".to_string())];
    assert_eq!(
        Some(Ok("x1 y2 x1".to_string())),
        apply_evaluations("x{{:a}} y{{?b}} x{{:a}}", &labels, &patterns, &outcomes)
    );
}

#[test]
fn evaluations_report_failures_or_give_up_on_other_values() {
    let labels = vec![(":a".to_string(), 1..6), ("?b".to_string(), 7..12)];
    let patterns = vec!["{{:a}}".to_string(), "{{?b}}".to_string()];
    let failed = vec![ExprOutcome::Text("1".to_string()), ExprOutcome::Failed("boom".to_string())];
    assert_eq!(
        Some(Err(vec![(
            ReqlangError::ResolverError(ResolverError::ExpressionEvaluationError(
                "?b".to_string(),
                "boom".to_string()
            )),
            7..12
        )])),
        apply_evaluations("x{{:a}} y{{?b}}", &labels, &patterns, &failed)
    );
    let other = vec![ExprOutcome::NotText, ExprOutcome::Failed("boom".to_string())];
    assert_eq!(None, apply_evaluations("x{{:a}} y{{?b}}", &labels, &patterns, &other));
}
