use crate::text::{decimal, decimal_string, ends_with, lemma_ends_with_concat, push_char, push_str, str_eq, trim_end_spec, trim_end_string};
use vstd::prelude::*;
use vstd::string::*;

verus! {

/// HTTP method of a request, such as `GET`.
#[derive(Debug, Clone, PartialEq)]
pub struct HttpVerb(pub String);

impl HttpVerb {
    pub fn get() -> (res: Self)
        ensures
            res.0@ == "GET"@,
    {
        HttpVerb("GET".to_owned())
    }

    pub fn post() -> (res: Self)
        ensures
            res.0@ == "POST"@,
    {
        HttpVerb("POST".to_owned())
    }

    /// The method as text (what `Display` writes).
    pub fn as_str(&self) -> (res: &str)
        ensures
            res@ == self.0@,
    {
        self.0.as_str()
    }
}

impl From<String> for HttpVerb {
    fn from(value: String) -> (res: Self)
        ensures
            res.0@ == value@,
    {
        Self(value)
    }
}

impl vstd::std_specs::convert::FromSpecImpl<String> for HttpVerb {
    open spec fn obeys_from_spec() -> bool {
        true
    }

    open spec fn from_spec(v: String) -> Self {
        HttpVerb(v)
    }
}

impl<'a> From<&'a str> for HttpVerb {
    fn from(value: &'a str) -> (res: Self)
        ensures
            res.0@ == value@,
    {
        Self(value.to_owned())
    }
}

impl<'a> vstd::std_specs::convert::FromSpecImpl<&'a str> for HttpVerb {
    open spec fn obeys_from_spec() -> bool {
        false
    }

    open spec fn from_spec(v: &'a str) -> Self {
        arbitrary()
    }
}

/// HTTP version of a message, such as `1.1`.
#[derive(Debug, Clone, PartialEq)]
pub struct HttpVersion(String);

impl View for HttpVersion {
    type V = Seq<char>;

    closed spec fn view(&self) -> Seq<char> {
        self.0@
    }
}

impl HttpVersion {
    pub fn one_point_one() -> (res: Self)
        ensures
            res@ == "1.1"@,
    {
        HttpVersion("1.1".to_owned())
    }

    /// A version with the given text.
    pub fn new(value: String) -> (res: Self)
        ensures
            res@ == value@,
    {
        HttpVersion(value)
    }

    /// The version as text (what `Display` writes).
    pub fn as_str(&self) -> (res: &str)
        ensures
            res@ == self@,
    {
        self.0.as_str()
    }

    /// A copy of this version.
    pub fn copy(&self) -> (res: Self)
        ensures
            res@ == self@,
    {
        HttpVersion(self.0.clone())
    }
}

impl Default for HttpVersion {
    fn default() -> (res: Self)
        ensures
            res@ == "1.1"@,
    {
        HttpVersion::one_point_one()
    }
}

impl From<String> for HttpVersion {
    fn from(value: String) -> (res: Self)
        ensures
            res@ == value@,
    {
        Self(value)
    }
}

impl vstd::std_specs::convert::FromSpecImpl<String> for HttpVersion {
    open spec fn obeys_from_spec() -> bool {
        true
    }

    closed spec fn from_spec(v: String) -> Self {
        HttpVersion(v)
    }
}

impl<'a> From<&'a str> for HttpVersion {
    fn from(value: &'a str) -> (res: Self)
        ensures
            res@ == value@,
    {
        Self(value.to_owned())
    }
}

impl<'a> vstd::std_specs::convert::FromSpecImpl<&'a str> for HttpVersion {
    open spec fn obeys_from_spec() -> bool {
        false
    }

    open spec fn from_spec(v: &'a str) -> Self {
        arbitrary()
    }
}

/// Headers as plain text pairs.
pub open spec fn headers_view(headers: Seq<(String, String)>) -> Seq<(Seq<char>, Seq<char>)> {
    headers.map_values(|h: (String, String)| (h.0@, h.1@))
}

/// Optional text as plain text.
pub open spec fn opt_view(o: Option<String>) -> Option<Seq<char>> {
    match o {
        Some(s) => Some(s@),
        None => None,
    }
}

/// HTTP Request
#[derive(Debug, Clone, PartialEq)]
pub struct HttpRequest {
    pub verb: HttpVerb,
    pub target: String,
    pub http_version: HttpVersion,
    pub headers: Vec<(String, String)>,
    pub body: Option<String>,
}

/// What an [HttpRequest] holds, as plain values.
pub ghost struct HttpRequestView {
    pub verb: Seq<char>,
    pub target: Seq<char>,
    pub http_version: Seq<char>,
    pub headers: Seq<(Seq<char>, Seq<char>)>,
    pub body: Option<Seq<char>>,
}

impl View for HttpRequest {
    type V = HttpRequestView;

    open spec fn view(&self) -> HttpRequestView {
        HttpRequestView {
            verb: self.verb.0@,
            target: self.target@,
            http_version: self.http_version@,
            headers: headers_view(self.headers@),
            body: opt_view(self.body),
        }
    }
}

/// `key: value` lines joined by line breaks.
pub open spec fn header_lines(headers: Seq<(Seq<char>, Seq<char>)>) -> Seq<char>
    decreases headers.len(),
{
    if headers.len() == 0 {
        Seq::empty()
    } else if headers.len() == 1 {
        headers[0].0 + ": "@ + headers[0].1
    } else {
        header_lines(headers.drop_last()) + "\n"@ + headers.last().0 + ": "@ + headers.last().1
    }
}

/// The part of an HTTP message after its first line: the headers (trailing
/// white space removed) and, when not empty, the body after a blank line.
pub open spec fn message_rest(headers: Seq<(Seq<char>, Seq<char>)>, body: Option<Seq<char>>) -> Seq<char> {
    let h = if headers.len() == 0 {
        None
    } else {
        Some(trim_end_spec(header_lines(headers)) + "\n"@)
    };
    let b = match body {
        Some(b) => if b.len() == 0 {
            None
        } else {
            Some(b)
        },
        None => None,
    };
    match (h, b) {
        (Some(h), Some(b)) => h + "\n"@ + b,
        (Some(h), None) => h,
        (None, Some(b)) => "\n"@ + b,
        (None, None) => Seq::empty(),
    }
}

/// A request written as an HTTP request message: the request line, then the
/// headers and body as [message_rest] writes them.
pub open spec fn request_message(r: HttpRequestView) -> Seq<char> {
    r.verb + " "@ + r.target + " HTTP/"@ + r.http_version + "\n"@ + message_rest(r.headers, r.body)
}

/// A response written as an HTTP response message: the status line, then the
/// headers and body as [message_rest] writes them.
pub open spec fn response_message(r: HttpResponseView) -> Seq<char> {
    "HTTP/"@ + r.http_version + " "@ + decimal(r.status_code as nat) + " "@ + r.status_text + "\n"@ + message_rest(
        r.headers,
        r.body,
    )
}

/// The part of a message after its first line.
fn message_rest_string(headers: &Vec<(String, String)>, body: &Option<String>) -> (res: String)
    ensures
        res@ == message_rest(headers_view(headers@), opt_view(*body)),
{
    let ghost hv = headers_view(headers@);
    let has_headers = headers.len() > 0;
    let mut rest = String::new();
    if has_headers {
        let lines = join_header_lines(headers);
        let trimmed = trim_end_string(&lines);
        push_str(&mut rest, trimmed.as_str());
        push_char(&mut rest, '\n');
    }
    let ghost hpart = rest@;
    let has_body = match body {
        Some(b) => !b.as_str().is_empty(),
        None => false,
    };
    if has_body {
        if let Some(b) = body {
            push_char(&mut rest, '\n');
            push_str(&mut rest, b.as_str());
        }
    }
    proof {
        reveal_strlit("\n");
        if has_headers {
            assert(hpart =~= trim_end_spec(header_lines(hv)) + "\n"@);
        } else {
            assert(hpart =~= Seq::<char>::empty());
        }
    }
    rest
}

impl HttpRequest {
    pub fn new(
        verb: HttpVerb,
        target: String,
        http_version: HttpVersion,
        headers: Vec<(String, String)>,
        body: Option<String>,
    ) -> (res: Self)
        ensures
            res.verb == verb,
            res.target == target,
            res.http_version == http_version,
            res.headers == headers,
            res.body == body,
    {
        Self { verb, target, http_version, headers, body }
    }

    /// A `GET` request with an empty body.
    pub fn get(target: &str, http_version: &str, headers: Vec<(String, String)>) -> (res: Self)
        ensures
            res@ == (HttpRequestView {
                verb: "GET"@,
                target: target@,
                http_version: http_version@,
                headers: headers_view(headers@),
                body: Some(Seq::empty()),
            }),
    {
        HttpRequest::new(
            HttpVerb::get(),
            target.to_owned(),
            HttpVersion::from(http_version),
            headers,
            Some(String::new()),
        )
    }

    /// A `POST` request.
    pub fn post(target: &str, http_version: &str, headers: Vec<(String, String)>, body: Option<&str>) -> (res: Self)
        ensures
            res@ == (HttpRequestView {
                verb: "POST"@,
                target: target@,
                http_version: http_version@,
                headers: headers_view(headers@),
                body: match body {
                    Some(b) => Some(b@),
                    None => None,
                },
            }),
    {
        let body = match body {
            Some(b) => Some(b.to_owned()),
            None => None,
        };
        HttpRequest::new(HttpVerb::post(), target.to_owned(), HttpVersion::from(http_version), headers, body)
    }

    /// A copy of this request.
    pub fn copy(&self) -> (res: Self)
        ensures
            res@ == self@,
    {
        HttpRequest {
            verb: HttpVerb(self.verb.0.clone()),
            target: self.target.clone(),
            http_version: self.http_version.copy(),
            headers: copy_headers(&self.headers),
            body: match &self.body {
                Some(b) => Some(b.clone()),
                None => None,
            },
        }
    }

    /// Add a header.
    pub fn with_header(&mut self, key: &str, value: &str) -> (res: &mut Self)
        ensures
            (*res)@ == (HttpRequestView {
                headers: old(self)@.headers.push((key@, value@)),
                ..old(self)@
            }),
            *final(res) == *final(self),
    {
        let ghost before = self.headers@;
        self.headers.push((key.to_owned(), value.to_owned()));
        assert(headers_view(self.headers@) =~= headers_view(before).push((key@, value@)));
        self
    }

    /// The request as an HTTP request message (what `Display` writes).
    pub fn to_http_message(&self) -> (res: String)
        ensures
            res@ == request_message(self@),
    {
        let ghost r = self@;
        let mut out = String::new();
        push_str(&mut out, self.verb.as_str());
        push_char(&mut out, ' ');
        push_str(&mut out, self.target.as_str());
        push_str(&mut out, " HTTP/");
        push_str(&mut out, self.http_version.as_str());
        push_char(&mut out, '\n');
        proof {
            reveal_strlit(" ");
            reveal_strlit("\n");
            reveal_strlit(" HTTP/");
            assert(out@ =~= r.verb + " "@ + r.target + " HTTP/"@ + r.http_version + "\n"@);
        }
        let ghost head = out@;
        let rest = message_rest_string(&self.headers, &self.body);
        push_str(&mut out, rest.as_str());
        proof {
            assert(out@ =~= head + rest@);
        }
        out
    }
}

/// A copy of a list of headers.
pub fn copy_headers(headers: &Vec<(String, String)>) -> (res: Vec<(String, String)>)
    ensures
        headers_view(res@) == headers_view(headers@),
{
    let mut out: Vec<(String, String)> = Vec::new();
    let n = headers.len();
    let mut i: usize = 0;
    while i < n
        invariant
            n == headers@.len(),
            i <= n,
            headers_view(out@) == headers_view(headers@.take(i as int)),
        decreases n - i,
    {
        let ghost before = out@;
        let k = headers[i].0.clone();
        let v = headers[i].1.clone();
        out.push((k, v));
        proof {
            assert(headers_view(out@) =~= headers_view(before).push((headers@[i as int].0@, headers@[i as int].1@)));
            assert(headers_view(headers@.take(i + 1)) =~= headers_view(headers@.take(i as int)).push(
                (headers@[i as int].0@, headers@[i as int].1@)));
        }
        i += 1;
    }
    proof {
        assert(headers@.take(n as int) =~= headers@);
    }
    out
}

fn join_header_lines(headers: &Vec<(String, String)>) -> (res: String)
    ensures
        res@ == header_lines(headers_view(headers@)),
{
    let mut out = String::new();
    let n = headers.len();
    let mut i: usize = 0;
    proof {
        reveal_strlit(": ");
        reveal_strlit("\n");
    }
    while i < n
        invariant
            n == headers@.len(),
            i <= n,
            out@ == header_lines(headers_view(headers@).take(i as int)),
        decreases n - i,
    {
        let ghost hv = headers_view(headers@);
        proof {
            assert(hv.take(i + 1).drop_last() =~= hv.take(i as int));
        }
        if i > 0 {
            push_char(&mut out, '\n');
        }
        push_str(&mut out, headers[i].0.as_str());
        push_str(&mut out, ": ");
        push_str(&mut out, headers[i].1.as_str());
        proof {
            reveal_strlit(": ");
            reveal_strlit("\n");
            assert(hv[i as int] == (headers@[i as int].0@, headers@[i as int].1@));
            assert(hv.take(i + 1).last() == hv[i as int]);
            if i == 0 {
                assert(hv.take(1).len() == 1);
                assert(hv.take(1)[0] == hv[0]);
            }
            assert(out@ =~= header_lines(hv.take(i + 1)));
        }
        i += 1;
    }
    proof {
        assert(headers_view(headers@).take(n as int) =~= headers_view(headers@));
    }
    out
}

/// HTTP status code, between 100 and 599.
#[derive(Debug, Clone, Copy, PartialEq)]
pub struct HttpStatusCode(u16);

impl View for HttpStatusCode {
    type V = u16;

    closed spec fn view(&self) -> u16 {
        self.0
    }
}

/// A status code is valid between 100 and 599.
pub open spec fn is_valid_status_code(code: u16) -> bool {
    100 <= code <= 599
}

impl HttpStatusCode {
    #[verifier::type_invariant]
    closed spec fn inv(self) -> bool {
        is_valid_status_code(self.0)
    }

    pub fn new(status_code: u16) -> (res: Self)
        requires
            is_valid_status_code(status_code),
        ensures
            res@ == status_code,
    {
        HttpStatusCode(status_code)
    }

    pub fn is_valid(status_code: u16) -> (res: bool)
        ensures
            res == is_valid_status_code(status_code),
    {
        100 <= status_code && status_code <= 599
    }

    /// The numeric code.
    pub fn code(&self) -> (res: u16)
        ensures
            res == self@,
            is_valid_status_code(res),
    {
        proof {
            use_type_invariant(self);
        }
        self.0
    }

    /// A copy of this status code.
    pub fn copy(&self) -> (res: Self)
        ensures
            res@ == self@,
    {
        proof {
            use_type_invariant(self);
        }
        HttpStatusCode(self.0)
    }

    /// A status code from a number, or an error if it is not a valid one.
    pub fn try_from_code(value: u16) -> (res: Result<Self, String>)
        ensures
            match res {
                Ok(c) => is_valid_status_code(value) && c@ == value,
                Err(e) => !is_valid_status_code(value) && e@ == "Invalid HTTP status code"@,
            },
    {
        if Self::is_valid(value) {
            Ok(HttpStatusCode(value))
        } else {
            Err("Invalid HTTP status code".to_owned())
        }
    }
}

/// HTTP Response
#[derive(Debug, Clone, PartialEq)]
pub struct HttpResponse {
    pub http_version: HttpVersion,
    pub status_code: HttpStatusCode,
    pub status_text: String,
    pub headers: Vec<(String, String)>,
    pub body: Option<String>,
}

impl HttpResponse {
    /// A copy of this response.
    pub fn copy(&self) -> (res: Self)
        ensures
            res@ == self@,
    {
        HttpResponse {
            http_version: self.http_version.copy(),
            status_code: self.status_code.copy(),
            status_text: self.status_text.clone(),
            headers: copy_headers(&self.headers),
            body: match &self.body {
                Some(b) => Some(b.clone()),
                None => None,
            },
        }
    }
}

/// What an [HttpResponse] holds, as plain values.
pub ghost struct HttpResponseView {
    pub http_version: Seq<char>,
    pub status_code: u16,
    pub status_text: Seq<char>,
    pub headers: Seq<(Seq<char>, Seq<char>)>,
    pub body: Option<Seq<char>>,
}

impl View for HttpResponse {
    type V = HttpResponseView;

    open spec fn view(&self) -> HttpResponseView {
        HttpResponseView {
            http_version: self.http_version@,
            status_code: self.status_code@,
            status_text: self.status_text@,
            headers: headers_view(self.headers@),
            body: opt_view(self.body),
        }
    }
}

impl HttpResponse {
    /// The response as an HTTP response message (what `Display` writes).
    pub fn to_http_message(&self) -> (res: String)
        ensures
            res@ == response_message(self@),
    {
        let ghost r = self@;
        let mut out = String::new();
        push_str(&mut out, "HTTP/");
        push_str(&mut out, self.http_version.as_str());
        push_char(&mut out, ' ');
        let code = decimal_string(self.status_code.code() as u64);
        push_str(&mut out, code.as_str());
        push_char(&mut out, ' ');
        push_str(&mut out, self.status_text.as_str());
        push_char(&mut out, '\n');
        proof {
            reveal_strlit(" ");
            reveal_strlit("\n");
            reveal_strlit("HTTP/");
            assert(out@ =~= "HTTP/"@ + r.http_version + " "@ + decimal(r.status_code as nat) + " "@ + r.status_text
                + "\n"@);
        }
        let ghost head = out@;
        let rest = message_rest_string(&self.headers, &self.body);
        push_str(&mut out, rest.as_str());
        proof {
            assert(out@ =~= head + rest@);
        }
        out
    }
}

/// The part of a message after its first line ends with a body that is not
/// empty, after the line break that ends the headers (if any).
pub proof fn lemma_message_rest_ends_with_body(headers: Seq<(Seq<char>, Seq<char>)>, b: Seq<char>)
    requires
        b.len() > 0,
    ensures
        ends_with(message_rest(headers, Some(b)), "\n"@ + b),
{
    if headers.len() == 0 {
        lemma_ends_with_concat(Seq::empty(), "\n"@ + b);
        assert(Seq::<char>::empty() + ("\n"@ + b) =~= "\n"@ + b);
    } else {
        let h = trim_end_spec(header_lines(headers)) + "\n"@;
        assert(message_rest(headers, Some(b)) =~= h + ("\n"@ + b));
        lemma_ends_with_concat(h, "\n"@ + b);
    }
}

/// A response message holds a body that is not empty at its end, after an
/// empty line, whether or not the response has headers; it starts with the
/// status line.
pub proof fn lemma_response_message_body(r: HttpResponseView, b: Seq<char>)
    requires
        r.body == Some(b),
        b.len() > 0,
    ensures
        ends_with(response_message(r), "\n"@ + b),
        response_message(r).len() >= b.len() + 1,
        ({
            let status = "HTTP/"@ + r.http_version + " "@ + decimal(r.status_code as nat) + " "@ + r.status_text + "\n"@;
            response_message(r).take(status.len() as int) == status
        }),
{
    let status = "HTTP/"@ + r.http_version + " "@ + decimal(r.status_code as nat) + " "@ + r.status_text + "\n"@;
    let rest = message_rest(r.headers, r.body);
    lemma_message_rest_ends_with_body(r.headers, b);
    assert(response_message(r) =~= status + rest);
    assert(rest.len() >= ("\n"@ + b).len());
    assert((status + rest).subrange((status + rest).len() - ("\n"@ + b).len(), (status + rest).len() as int)
        =~= rest.subrange(rest.len() - ("\n"@ + b).len(), rest.len() as int));
    assert((status + rest).take(status.len() as int) =~= status);
}

/// A request message holds a body that is not empty at its end, after an
/// empty line, whether or not the request has headers; it starts with the
/// request line.
pub proof fn lemma_request_message_body(r: HttpRequestView, b: Seq<char>)
    requires
        r.body == Some(b),
        b.len() > 0,
    ensures
        ends_with(request_message(r), "\n"@ + b),
        ({
            let line = r.verb + " "@ + r.target + " HTTP/"@ + r.http_version + "\n"@;
            request_message(r).take(line.len() as int) == line
        }),
{
    let line = r.verb + " "@ + r.target + " HTTP/"@ + r.http_version + "\n"@;
    let rest = message_rest(r.headers, r.body);
    lemma_message_rest_ends_with_body(r.headers, b);
    assert(request_message(r) =~= line + rest);
    assert((line + rest).subrange((line + rest).len() - ("\n"@ + b).len(), (line + rest).len() as int)
        =~= rest.subrange(rest.len() - ("\n"@ + b).len(), rest.len() as int));
    assert((line + rest).take(line.len() as int) =~= line);
}

} // verus!
