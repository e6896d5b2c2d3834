//! Reading the HTTP request and response blocks of a request file.
use crate::errors::{ParseError, ParseErrorView, ReqlangError, ReqlangErrorView};
use crate::span::{copy_span, Span, Spanned};
use crate::text::{decimal, decimal_string, push_str};
use crate::types::http::{
    headers_view, is_valid_status_code, HttpRequest, HttpRequestView, HttpResponse, HttpResponseView,
    HttpStatusCode, HttpVerb, HttpVersion,
};
use vstd::prelude::*;
use vstd::string::*;
use vstd::utf8::*;

verus! {

/// The head of an HTTP request as the HTTP parser reads it.
pub struct RequestHead {
    pub method: String,
    pub path: String,
    /// Minor version: `1` for `HTTP/1.1`.
    pub version: u8,
    /// Header names and values, in order.
    pub headers: Vec<(String, String)>,
    /// Byte offset where the body starts.
    pub body_offset: usize,
}

/// The head of an HTTP response as the HTTP parser reads it.
pub struct ResponseHead {
    pub version: u8,
    pub code: u16,
    pub reason: String,
    pub headers: Vec<(String, String)>,
    pub body_offset: usize,
}

/// The outcome of reading a request head.
pub enum RequestRead {
    Complete(RequestHead),
    Partial,
    Invalid(String),
}

/// The outcome of reading a response head.
pub enum ResponseRead {
    Complete(ResponseHead),
    Partial,
    Invalid(String),
}

pub ghost struct RequestHeadView {
    pub method: Seq<char>,
    pub path: Seq<char>,
    pub version: u8,
    pub headers: Seq<(Seq<char>, Seq<char>)>,
    pub body_offset: nat,
}

pub ghost struct ResponseHeadView {
    pub version: u8,
    pub code: u16,
    pub reason: Seq<char>,
    pub headers: Seq<(Seq<char>, Seq<char>)>,
    pub body_offset: nat,
}

pub ghost enum RequestReadView {
    Complete(RequestHeadView),
    Partial,
    Invalid(Seq<char>),
}

pub ghost enum ResponseReadView {
    Complete(ResponseHeadView),
    Partial,
    Invalid(Seq<char>),
}

impl View for RequestRead {
    type V = RequestReadView;

    open spec fn view(&self) -> RequestReadView {
        match self {
            RequestRead::Complete(h) => RequestReadView::Complete(RequestHeadView {
                method: h.method@,
                path: h.path@,
                version: h.version,
                headers: headers_view(h.headers@),
                body_offset: h.body_offset as nat,
            }),
            RequestRead::Partial => RequestReadView::Partial,
            RequestRead::Invalid(m) => RequestReadView::Invalid(m@),
        }
    }
}

impl View for ResponseRead {
    type V = ResponseReadView;

    open spec fn view(&self) -> ResponseReadView {
        match self {
            ResponseRead::Complete(h) => ResponseReadView::Complete(ResponseHeadView {
                version: h.version,
                code: h.code,
                reason: h.reason@,
                headers: headers_view(h.headers@),
                body_offset: h.body_offset as nat,
            }),
            ResponseRead::Partial => ResponseReadView::Partial,
            ResponseRead::Invalid(m) => ResponseReadView::Invalid(m@),
        }
    }
}

/// What `httparse::Request::parse` makes of a text (with room for 64 headers).
pub uninterp spec fn http_request_head(text: Seq<char>) -> RequestReadView;

/// What `httparse::Response::parse` makes of a text (with room for 64 headers).
pub uninterp spec fn http_response_head(text: Seq<char>) -> ResponseReadView;

/// The body offset lies within the text, on a character boundary.
pub open spec fn offset_in(text: Seq<char>, offset: nat) -> bool {
    offset <= encode_utf8(text).len() && is_char_boundary(encode_utf8(text), offset as int)
}

/// Reads a request head with `httparse::Request::parse` and 64 header slots.
/// Claimed: the result is a function of the text; on a complete read, the
/// body offset (the position after the line break that ends the head) lies
/// within the text on a character boundary. Header values are taken as text
/// (they are slices of the text between ASCII delimiters).
#[verifier::external_body]
fn read_request_head(text: &str) -> (res: RequestRead)
    ensures
        res@ == http_request_head(text@),
        res@ matches RequestReadView::Complete(h) ==> offset_in(text@, h.body_offset),
{
    let mut headers = [httparse::EMPTY_HEADER; 64];
    let mut req = httparse::Request::new(&mut headers);
    match req.parse(text.as_bytes()) {
        Ok(httparse::Status::Complete(n)) => RequestRead::Complete(RequestHead {
            method: req.method.unwrap_or_default().to_string(),
            path: req.path.unwrap_or_default().to_string(),
            version: req.version.unwrap_or_default(),
            headers: req.headers.iter().map(|h| (h.name.to_string(), String::from_utf8_lossy(h.value).into_owned())).collect(),
            body_offset: n,
        }),
        Ok(httparse::Status::Partial) => RequestRead::Partial,
        Err(e) => RequestRead::Invalid(e.to_string()),
    }
}

/// Reads a response head with `httparse::Response::parse` and 64 header
/// slots. Claimed as for [read_request_head].
#[verifier::external_body]
fn read_response_head(text: &str) -> (res: ResponseRead)
    ensures
        res@ == http_response_head(text@),
        res@ matches ResponseReadView::Complete(h) ==> offset_in(text@, h.body_offset),
{
    let mut headers = [httparse::EMPTY_HEADER; 64];
    let mut res = httparse::Response::new(&mut headers);
    match res.parse(text.as_bytes()) {
        Ok(httparse::Status::Complete(n)) => ResponseRead::Complete(ResponseHead {
            version: res.version.unwrap_or_default(),
            code: res.code.unwrap_or_default(),
            reason: res.reason.unwrap_or_default().to_string(),
            headers: res.headers.iter().map(|h| (h.name.to_string(), String::from_utf8_lossy(h.value).into_owned())).collect(),
            body_offset: n,
        }),
        Ok(httparse::Status::Partial) => ResponseRead::Partial,
        Err(e) => ResponseRead::Invalid(e.to_string()),
    }
}

/// The text handed to the HTTP parser: the block and an empty line.
pub open spec fn message_text(block: Seq<char>) -> Seq<char> {
    block + "\n\n"@
}

/// The text after a byte offset.
pub open spec fn text_after(text: Seq<char>, offset: nat) -> Seq<char> {
    decode_utf8(encode_utf8(text).subrange(offset as int, encode_utf8(text).len() as int))
}

/// Headers without those whose name is empty.
pub open spec fn named_headers(headers: Seq<(Seq<char>, Seq<char>)>) -> Seq<(Seq<char>, Seq<char>)>
    decreases headers.len(),
{
    if headers.len() == 0 {
        Seq::empty()
    } else if headers.last().0.len() == 0 {
        named_headers(headers.drop_last())
    } else {
        named_headers(headers.drop_last()).push(headers.last())
    }
}

/// `"1."` followed by the minor version.
pub open spec fn version_text(minor: u8) -> Seq<char> {
    "1."@ + decimal(minor as nat)
}

/// An invalid-request error at a span.
pub open spec fn invalid_request(message: Seq<char>, span: Span) -> (ReqlangErrorView, Span) {
    (ReqlangErrorView::ParseError(ParseErrorView::InvalidRequestError { message }), span)
}

/// The request read from a text: the error of a head that is invalid or only
/// partly there, else the head's method, target, version and named headers,
/// with the text after the head as its body.
pub open spec fn request_from_head(text: Seq<char>, read: RequestReadView, span: Span) -> Result<(HttpRequestView, Span), Seq<(ReqlangErrorView, Span)>> {
    match read {
        RequestReadView::Invalid(m) => Err(seq![invalid_request(m, span)]),
        RequestReadView::Partial => Err(seq![invalid_request("Unable to parse a partial request"@, span)]),
        RequestReadView::Complete(h) => Ok((
            HttpRequestView {
                verb: h.method,
                target: h.path,
                http_version: version_text(h.version),
                headers: named_headers(h.headers),
                body: Some(text_after(text, h.body_offset)),
            },
            span,
        )),
    }
}

/// What [parse_request] gives for a request block at a span.
pub open spec fn request_spec(block: Seq<char>, span: Span) -> Result<(HttpRequestView, Span), Seq<(ReqlangErrorView, Span)>> {
    request_from_head(message_text(block), http_request_head(message_text(block)), span)
}

/// A response block whose head reads completely has a status code between 100
/// and 599 (other codes are refused by [parse_response]).
pub open spec fn response_code_ok(block: Seq<char>) -> bool {
    match http_response_head(message_text(block)) {
        ResponseReadView::Complete(h) => is_valid_status_code(h.code),
        _ => true,
    }
}

/// The response read from a text: when its head reads completely, the head's
/// version, status code, reason and named headers, with the text after the
/// head as its body; nothing otherwise.
pub open spec fn response_from_head(text: Seq<char>, read: ResponseReadView, span: Span) -> Option<(HttpResponseView, Span)> {
    match read {
        ResponseReadView::Complete(h) => Some((
            HttpResponseView {
                http_version: version_text(h.version),
                status_code: h.code,
                status_text: h.reason,
                headers: named_headers(h.headers),
                body: Some(text_after(text, h.body_offset)),
            },
            span,
        )),
        _ => None,
    }
}

/// What [parse_response] gives for a response block: the response when its
/// head reads completely, nothing otherwise.
pub open spec fn response_spec(block: Seq<char>, span: Span) -> Option<(HttpResponseView, Span)> {
    response_from_head(message_text(block), http_response_head(message_text(block)), span)
}

/// View of a parsed request or its errors.
pub open spec fn request_result_view(r: Result<Spanned<HttpRequest>, Vec<Spanned<ReqlangError>>>) -> Result<(HttpRequestView, Span), Seq<(ReqlangErrorView, Span)>> {
    match r {
        Ok((req, span)) => Ok((req@, span)),
        Err(errs) => Err(errors_view(errs@)),
    }
}

/// Plain view of spanned errors.
pub open spec fn errors_view(errs: Seq<Spanned<ReqlangError>>) -> Seq<(ReqlangErrorView, Span)> {
    errs.map_values(|e: Spanned<ReqlangError>| (e.0@, e.1))
}

fn message_string(block: &String) -> (res: String)
    ensures
        res@ == message_text(block@),
{
    let mut text = block.clone();
    push_str(&mut text, "\n\n");
    proof {
        reveal_strlit("\n\n");
    }
    text
}

fn named_headers_exec(headers: Vec<(String, String)>) -> (res: Vec<(String, String)>)
    ensures
        headers_view(res@) == named_headers(headers_view(headers@)),
{
    let mut out: Vec<(String, String)> = Vec::new();
    let n = headers.len();
    let mut i: usize = 0;
    while i < n
        invariant
            n == headers@.len(),
            i <= n,
            headers_view(out@) == named_headers(headers_view(headers@).take(i as int)),
        decreases n - i,
    {
        let ghost hv = headers_view(headers@);
        proof {
            assert(hv.take(i + 1).drop_last() =~= hv.take(i as int));
        }
        let (name, value) = (headers[i].0.clone(), headers[i].1.clone());
        if !name.as_str().is_empty() {
            let ghost before = headers_view(out@);
            out.push((name, value));
            proof {
                assert(headers_view(out@) =~= before.push(hv[i as int]));
            }
        }
        i += 1;
    }
    proof {
        assert(headers_view(headers@).take(n as int) =~= headers_view(headers@));
    }
    out
}

fn version_string(minor: u8) -> (res: String)
    ensures
        res@ == version_text(minor),
{
    let mut out = "1.".to_owned();
    let digits = decimal_string(minor as u64);
    push_str(&mut out, digits.as_str());
    proof {
        reveal_strlit("1.");
    }
    out
}

/// The text of `text` after a byte offset.
fn body_after(text: &String, offset: usize) -> (res: String)
    requires
        offset_in(text@, offset as nat),
    ensures
        res@ == text_after(text@, offset as nat),
{
    let s = text.as_str();
    let (_head, body) = s.split_at(offset);
    proof {
        broadcast use vstd::utf8::group_utf8_lib;
        assert(decode_utf8(body.spec_bytes()) == body@);
    }
    body.to_owned()
}

/// Parse the request block of a request file into an HTTP request
///
/// The block, followed by an empty line, is read as an HTTP/1.x request
/// head; the text after the head is the body.
pub fn parse_request(request: &Spanned<String>) -> (res: Result<Spanned<HttpRequest>, Vec<Spanned<ReqlangError>>>)
    ensures
        request_result_view(res) == request_spec(request.0@, request.1),
{
    let (block, span) = request;
    let text = message_string(block);
    let read = read_request_head(text.as_str());
    request_from_read(&text, read, span)
}

/// The request that a read of `text`'s head gives: an invalid-request error
/// at `span` for a head that is invalid or only partly there, else the
/// request of the head, with the text after it as its body.
pub fn request_from_read(text: &String, read: RequestRead, span: &Span) -> (res: Result<Spanned<HttpRequest>, Vec<Spanned<ReqlangError>>>)
    requires
        read@ matches RequestReadView::Complete(h) ==> offset_in(text@, h.body_offset),
    ensures
        request_result_view(res) == request_from_head(text@, read@, *span),
{
    match read {
        RequestRead::Invalid(message) => {
            let errs = vec![(ReqlangError::ParseError(ParseError::InvalidRequestError { message }), copy_span(span))];
            proof {
                assert(errors_view(errs@) =~= seq![invalid_request(message@, *span)]);
            }
            Err(errs)
        },
        RequestRead::Partial => {
            let message = "Unable to parse a partial request".to_owned();
            let errs = vec![(ReqlangError::ParseError(ParseError::InvalidRequestError { message }), copy_span(span))];
            proof {
                reveal_strlit("Unable to parse a partial request");
                assert(errors_view(errs@) =~= seq![invalid_request("Unable to parse a partial request"@, *span)]);
            }
            Err(errs)
        },
        RequestRead::Complete(head) => {
            let body = body_after(text, head.body_offset);
            let req = HttpRequest {
                verb: HttpVerb(head.method),
                target: head.path,
                http_version: HttpVersion::new(version_string(head.version)),
                headers: named_headers_exec(head.headers),
                body: Some(body),
            };
            Ok((req, copy_span(span)))
        },
    }
}

/// Parse the response block of a request file, if there is one, into an HTTP
/// response
///
/// The block, followed by an empty line, is read as an HTTP/1.x response
/// head; the text after the head is the body. A block whose head does not
/// read completely gives nothing.
pub fn parse_response(response: &Option<Spanned<String>>) -> (res: Option<Result<Spanned<HttpResponse>, Vec<Spanned<ReqlangError>>>>)
    requires
        response matches Some(r) ==> response_code_ok(r.0@),
    ensures
        match response {
            None => res is None,
            Some(r) => match response_spec(r.0@, r.1) {
                None => res is None,
                Some((v, s)) => res matches Some(Ok((x, xs))) && x@ == v && xs == s,
            },
        },
{
    let (block, span) = match response {
        Some(r) => r,
        None => return None,
    };
    let text = message_string(block);
    let read = read_response_head(text.as_str());
    response_from_read(&text, read, span)
}

/// The response that a read of `text`'s head gives: when the head reads
/// completely, the response of the head at `span`, with the text after it as
/// its body; nothing otherwise.
pub fn response_from_read(text: &String, read: ResponseRead, span: &Span) -> (res: Option<Result<Spanned<HttpResponse>, Vec<Spanned<ReqlangError>>>>)
    requires
        read@ matches ResponseReadView::Complete(h) ==> offset_in(text@, h.body_offset) && is_valid_status_code(h.code),
    ensures
        match response_from_head(text@, read@, *span) {
            None => res is None,
            Some((v, s)) => res matches Some(Ok((x, xs))) && x@ == v && xs == s,
        },
{
    match read {
        ResponseRead::Complete(head) => {
            let body = body_after(text, head.body_offset);
            let res = HttpResponse {
                http_version: HttpVersion::new(version_string(head.version)),
                status_code: HttpStatusCode::new(head.code),
                status_text: head.reason,
                headers: named_headers_exec(head.headers),
                body: Some(body),
            };
            Some(Ok((res, copy_span(span))))
        },
        _ => None,
    }
}

/// Whether a response block can be given to [parse_response]: its head does
/// not read completely, or it does with a status code between 100 and 599.
pub fn response_block_ok(block: &String) -> (res: bool)
    ensures
        res == response_code_ok(block@),
{
    let text = message_string(block);
    match read_response_head(text.as_str()) {
        ResponseRead::Complete(head) => HttpStatusCode::is_valid(head.code),
        _ => true,
    }
}

/// [parse_response] for any response block: `None` when the block reads as a
/// response head with a status code outside 100 to 599.
pub fn parse_response_checked(response: &Option<Spanned<String>>) -> (res: Option<Option<Result<Spanned<HttpResponse>, Vec<Spanned<ReqlangError>>>>>)
    ensures
        res is None <==> (response matches Some(r) && !response_code_ok(r.0@)),
        res matches Some(inner) ==> match response {
            None => inner is None,
            Some(r) => match response_spec(r.0@, r.1) {
                None => inner is None,
                Some((v, s)) => inner matches Some(Ok((x, xs))) && x@ == v && xs == s,
            },
        },
{
    if let Some((block, _)) = response {
        if !response_block_ok(block) {
            return None;
        }
    }
    Some(parse_response(response))
}

} // verus!
