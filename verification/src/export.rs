//! Writing requests and responses in other formats.
//!
//! The JSON forms are written by serializing the values; that is left to the
//! caller, and the functions here give `None` for them.
use crate::parser::request_file::contains_text;
use crate::text::{ends_with, lemma_ends_with_concat, push_str, str_eq};
use crate::types::http::{
    header_lines, headers_view, request_message, response_message, HttpRequest, HttpRequestView, HttpResponse,
    HttpResponseView,
};
use vstd::prelude::*;
use vstd::string::*;

verus! {

/// Supported formats to export request files to
#[derive(Copy, Clone, PartialEq, Eq, Debug)]
pub enum RequestFormat {
    /// Export as an HTTP Request message
    HttpMessage,
    /// Export as a curl command
    CurlCommand,
    /// Export as a JSON object
    Json,
}

/// Supported formats to export responses to
#[derive(Copy, Clone, PartialEq, Eq, Debug)]
pub enum ResponseFormat {
    /// Export as an HTTP Response message
    HttpMessage,
    /// Export as a JSON object
    Json,
    /// Export the body alone
    Body,
}

/// Supported formats to export request files to (the formats of
/// [RequestFormat], with the HTTP message as the default)
#[derive(Copy, Clone, PartialEq, Eq, Debug)]
pub enum Format {
    HttpMessage,
    CurlCommand,
    Json,
}

/// The name of a request format.
pub open spec fn request_format_name(f: RequestFormat) -> Seq<char> {
    match f {
        RequestFormat::HttpMessage => "http"@,
        RequestFormat::CurlCommand => "curl"@,
        RequestFormat::Json => "json"@,
    }
}

/// The name of a response format.
pub open spec fn response_format_name(f: ResponseFormat) -> Seq<char> {
    match f {
        ResponseFormat::HttpMessage => "http"@,
        ResponseFormat::Json => "json"@,
        ResponseFormat::Body => "body"@,
    }
}

/// The name of a format.
pub open spec fn format_name(f: Format) -> Seq<char> {
    match f {
        Format::HttpMessage => "http"@,
        Format::CurlCommand => "curl"@,
        Format::Json => "json"@,
    }
}

/// The error for a name that is no format.
pub open spec fn unknown_format(s: Seq<char>) -> Seq<char> {
    "Unknown format: "@ + s
}

fn unknown_format_message(s: &str) -> (res: String)
    ensures
        res@ == unknown_format(s@),
{
    let mut m = "Unknown format: ".to_owned();
    push_str(&mut m, s);
    m
}

impl RequestFormat {
    /// The format's name (what `Display` writes).
    pub fn as_str(&self) -> (res: &'static str)
        ensures
            res@ == request_format_name(*self),
    {
        match self {
            RequestFormat::HttpMessage => "http",
            RequestFormat::CurlCommand => "curl",
            RequestFormat::Json => "json",
        }
    }

    /// The format with a name (what `FromStr` reads).
    pub fn from_name(s: &str) -> (res: Result<Self, String>)
        ensures
            match res {
                Ok(f) => request_format_name(f) == s@,
                Err(e) => e@ == unknown_format(s@) && forall|f: RequestFormat| request_format_name(f) != s@,
            },
    {
        proof {
            reveal_strlit("http");
            reveal_strlit("curl");
            reveal_strlit("json");
        }
        if str_eq(s, "http") {
            Ok(RequestFormat::HttpMessage)
        } else if str_eq(s, "curl") {
            Ok(RequestFormat::CurlCommand)
        } else if str_eq(s, "json") {
            Ok(RequestFormat::Json)
        } else {
            Err(unknown_format_message(s))
        }
    }
}

impl Default for RequestFormat {
    fn default() -> (res: Self)
        ensures
            res == RequestFormat::Json,
    {
        RequestFormat::Json
    }
}

impl core::str::FromStr for RequestFormat {
    type Err = String;

    fn from_str(s: &str) -> (res: Result<Self, Self::Err>)
        ensures
            match res {
                Ok(f) => request_format_name(f) == s@,
                Err(e) => e@ == unknown_format(s@) && forall|f: RequestFormat| request_format_name(f) != s@,
            },
    {
        RequestFormat::from_name(s)
    }
}

impl ResponseFormat {
    /// The format's name (what `Display` writes).
    pub fn as_str(&self) -> (res: &'static str)
        ensures
            res@ == response_format_name(*self),
    {
        match self {
            ResponseFormat::HttpMessage => "http",
            ResponseFormat::Json => "json",
            ResponseFormat::Body => "body",
        }
    }

    /// The format with a name (what `FromStr` reads).
    pub fn from_name(s: &str) -> (res: Result<Self, String>)
        ensures
            match res {
                Ok(f) => response_format_name(f) == s@,
                Err(e) => e@ == unknown_format(s@) && forall|f: ResponseFormat| response_format_name(f) != s@,
            },
    {
        proof {
            reveal_strlit("http");
            reveal_strlit("json");
            reveal_strlit("body");
        }
        if str_eq(s, "http") {
            Ok(ResponseFormat::HttpMessage)
        } else if str_eq(s, "json") {
            Ok(ResponseFormat::Json)
        } else if str_eq(s, "body") {
            Ok(ResponseFormat::Body)
        } else {
            Err(unknown_format_message(s))
        }
    }
}

impl Default for ResponseFormat {
    fn default() -> (res: Self)
        ensures
            res == ResponseFormat::Json,
    {
        ResponseFormat::Json
    }
}

impl core::str::FromStr for ResponseFormat {
    type Err = String;

    fn from_str(s: &str) -> (res: Result<Self, Self::Err>)
        ensures
            match res {
                Ok(f) => response_format_name(f) == s@,
                Err(e) => e@ == unknown_format(s@) && forall|f: ResponseFormat| response_format_name(f) != s@,
            },
    {
        ResponseFormat::from_name(s)
    }
}

impl Format {
    /// The format's name (what `Display` writes).
    pub fn as_str(&self) -> (res: &'static str)
        ensures
            res@ == format_name(*self),
    {
        match self {
            Format::HttpMessage => "http",
            Format::CurlCommand => "curl",
            Format::Json => "json",
        }
    }

    /// The format with a name (what `FromStr` reads).
    pub fn from_name(s: &str) -> (res: Result<Self, String>)
        ensures
            match res {
                Ok(f) => format_name(f) == s@,
                Err(e) => e@ == unknown_format(s@) && forall|f: Format| format_name(f) != s@,
            },
    {
        proof {
            reveal_strlit("http");
            reveal_strlit("curl");
            reveal_strlit("json");
        }
        if str_eq(s, "http") {
            Ok(Format::HttpMessage)
        } else if str_eq(s, "curl") {
            Ok(Format::CurlCommand)
        } else if str_eq(s, "json") {
            Ok(Format::Json)
        } else {
            Err(unknown_format_message(s))
        }
    }
}

impl Default for Format {
    fn default() -> (res: Self)
        ensures
            res == Format::HttpMessage,
    {
        Format::HttpMessage
    }
}

impl core::str::FromStr for Format {
    type Err = String;

    fn from_str(s: &str) -> (res: Result<Self, Self::Err>)
        ensures
            match res {
                Ok(f) => format_name(f) == s@,
                Err(e) => e@ == unknown_format(s@) && forall|f: Format| format_name(f) != s@,
            },
    {
        Format::from_name(s)
    }
}

/// Each header as a `-H "name: value"` argument, joined by spaces.
pub open spec fn curl_header_args(headers: Seq<(Seq<char>, Seq<char>)>) -> Seq<char>
    decreases headers.len(),
{
    if headers.len() == 0 {
        Seq::empty()
    } else {
        let arg = "-H \""@ + headers.last().0 + ": "@ + headers.last().1 + "\""@;
        if headers.len() == 1 {
            arg
        } else {
            curl_header_args(headers.drop_last()) + " "@ + arg
        }
    }
}

/// A request as a curl command: the method flag (none for `GET`), the target,
/// the HTTP version, the headers and a body that is not empty.
pub open spec fn curl_command(r: HttpRequestView) -> Seq<char> {
    let verb_flag = if r.verb == "GET"@ {
        Seq::empty()
    } else {
        "-X "@ + r.verb + " "@
    };
    let headers = if r.headers.len() == 0 {
        None
    } else {
        Some(curl_header_args(r.headers))
    };
    let body = match r.body {
        Some(b) => if b.len() == 0 {
            None
        } else {
            Some("-d '"@ + b + "'"@)
        },
        None => None,
    };
    let rest = match (headers, body) {
        (Some(h), Some(b)) => " "@ + h + " "@ + b,
        (Some(h), None) => " "@ + h,
        (None, Some(b)) => " "@ + b,
        (None, None) => Seq::empty(),
    };
    "curl "@ + verb_flag + r.target + " --http"@ + r.http_version + rest + " -v"@
}

fn curl_header_args_string(headers: &Vec<(String, String)>) -> (res: String)
    ensures
        res@ == curl_header_args(headers_view(headers@)),
{
    let ghost hv = headers_view(headers@);
    let mut out = String::new();
    let n = headers.len();
    let mut i: usize = 0;
    proof {
        reveal_strlit("-H \"");
        reveal_strlit(": ");
        reveal_strlit("\"");
        reveal_strlit(" ");
    }
    while i < n
        invariant
            n == headers@.len(),
            hv == headers_view(headers@),
            i <= n,
            out@ == curl_header_args(hv.take(i as int)),
        decreases n - i,
    {
        proof {
            assert(hv.take(i + 1).drop_last() =~= hv.take(i as int));
            assert(hv.take(i + 1).last() == hv[i as int]);
        }
        let ghost before = out@;
        if i > 0 {
            push_str(&mut out, " ");
        }
        push_str(&mut out, "-H \"");
        push_str(&mut out, headers[i].0.as_str());
        push_str(&mut out, ": ");
        push_str(&mut out, headers[i].1.as_str());
        push_str(&mut out, "\"");
        proof {
            let arg = "-H \""@ + hv[i as int].0 + ": "@ + hv[i as int].1 + "\""@;
            if i == 0 {
                assert(before =~= Seq::<char>::empty());
                assert(out@ =~= arg);
            } else {
                assert(out@ =~= before + " "@ + arg);
            }
        }
        i += 1;
    }
    assert(hv.take(n as int) =~= hv);
    out
}

fn curl_command_string(request: &HttpRequest) -> (res: String)
    ensures
        res@ == curl_command(request@),
{
    let ghost r = request@;
    proof {
        reveal_strlit("GET");
        reveal_strlit("-X ");
        reveal_strlit(" ");
        reveal_strlit("-d '");
        reveal_strlit("'");
        reveal_strlit("curl ");
        reveal_strlit(" --http");
        reveal_strlit(" -v");
    }
    let mut out = "curl ".to_owned();
    if !str_eq(request.verb.as_str(), "GET") {
        push_str(&mut out, "-X ");
        push_str(&mut out, request.verb.as_str());
        push_str(&mut out, " ");
    }
    push_str(&mut out, request.target.as_str());
    push_str(&mut out, " --http");
    push_str(&mut out, request.http_version.as_str());
    let ghost head = out@;
    let mut rest = String::new();
    let has_headers = request.headers.len() > 0;
    if has_headers {
        push_str(&mut rest, " ");
        let args = curl_header_args_string(&request.headers);
        push_str(&mut rest, args.as_str());
    }
    let ghost hpart = rest@;
    if let Some(b) = &request.body {
        if !b.as_str().is_empty() {
            push_str(&mut rest, " -d '");
            push_str(&mut rest, b.as_str());
            push_str(&mut rest, "'");
            proof {
                reveal_strlit(" -d '");
                assert(" -d '"@ =~= " "@ + "-d '"@);
            }
        }
    }
    proof {
        let headers = if r.headers.len() == 0 {
            None
        } else {
            Some(curl_header_args(r.headers))
        };
        let body = match r.body {
            Some(b) => if b.len() == 0 {
                None
            } else {
                Some("-d '"@ + b + "'"@)
            },
            None => None,
        };
        let expected_rest = match (headers, body) {
            (Some(h), Some(b)) => " "@ + h + " "@ + b,
            (Some(h), None) => " "@ + h,
            (None, Some(b)) => " "@ + b,
            (None, None) => Seq::empty(),
        };
        assert(rest@ =~= expected_rest);
    }
    push_str(&mut out, rest.as_str());
    push_str(&mut out, " -v");
    proof {
        let verb_flag = if r.verb == "GET"@ {
            Seq::<char>::empty()
        } else {
            "-X "@ + r.verb + " "@
        };
        assert(head =~= "curl "@ + verb_flag + r.target + " --http"@ + r.http_version);
        assert(out@ =~= curl_command(r));
    }
    out
}

/// What [export] gives: the request message or curl command, `None` for the
/// JSON form.
pub open spec fn export_spec(r: HttpRequestView, format: RequestFormat) -> Option<Seq<char>> {
    match format {
        RequestFormat::HttpMessage => Some(request_message(r)),
        RequestFormat::CurlCommand => Some(curl_command(r)),
        RequestFormat::Json => None,
    }
}

/// Export an [HttpRequest] in a specified [RequestFormat]
///
/// Gives `None` for [RequestFormat::Json], whose text is the serialized
/// request.
pub fn export(request: &HttpRequest, format: RequestFormat) -> (res: Option<String>)
    ensures
        match res {
            Some(t) => export_spec(request@, format) == Some(t@),
            None => export_spec(request@, format) is None,
        },
{
    match format {
        RequestFormat::HttpMessage => Some(request.to_http_message()),
        RequestFormat::CurlCommand => Some(curl_command_string(request)),
        RequestFormat::Json => None,
    }
}

/// What [export_response] gives: the response message or its body (empty
/// when there is none), `None` for the JSON form.
pub open spec fn export_response_spec(r: HttpResponseView, format: ResponseFormat) -> Option<Seq<char>> {
    match format {
        ResponseFormat::HttpMessage => Some(response_message(r)),
        ResponseFormat::Json => None,
        ResponseFormat::Body => Some(
            match r.body {
                Some(b) => b,
                None => Seq::empty(),
            },
        ),
    }
}

/// Export an [HttpResponse] in a specified [ResponseFormat]
///
/// Gives `None` for [ResponseFormat::Json], whose text is the serialized
/// response.
pub fn export_response(response: &HttpResponse, format: ResponseFormat) -> (res: Option<String>)
    ensures
        match res {
            Some(t) => export_response_spec(response@, format) == Some(t@),
            None => export_response_spec(response@, format) is None,
        },
{
    match format {
        ResponseFormat::HttpMessage => Some(response.to_http_message()),
        ResponseFormat::Json => None,
        ResponseFormat::Body => match &response.body {
            Some(b) => Some(b.clone()),
            None => Some(String::new()),
        },
    }
}

/// Each request format has its own name, so reading the name a format
/// writes gives that format back.
pub proof fn lemma_request_format_names_distinct(a: RequestFormat, b: RequestFormat)
    ensures
        request_format_name(a) == request_format_name(b) ==> a == b,
{
    reveal_strlit("http");
    reveal_strlit("curl");
    reveal_strlit("json");
    if a != b {
        let (x, y) = (request_format_name(a), request_format_name(b));
        assert(x[0] != y[0] || x[1] != y[1]);
    }
}

/// Each response format has its own name, so reading the name a format
/// writes gives that format back.
pub proof fn lemma_response_format_names_distinct(a: ResponseFormat, b: ResponseFormat)
    ensures
        response_format_name(a) == response_format_name(b) ==> a == b,
{
    reveal_strlit("http");
    reveal_strlit("json");
    reveal_strlit("body");
    if a != b {
        let (x, y) = (response_format_name(a), response_format_name(b));
        assert(x[0] != y[0]);
    }
}

/// Each format has its own name, so reading the name a format writes gives
/// that format back.
pub proof fn lemma_format_names_distinct(a: Format, b: Format)
    ensures
        format_name(a) == format_name(b) ==> a == b,
{
    reveal_strlit("http");
    reveal_strlit("curl");
    reveal_strlit("json");
    if a != b {
        let (x, y) = (format_name(a), format_name(b));
        assert(x[0] != y[0] || x[1] != y[1]);
    }
}

/// A request with a body that is not empty is exported as a curl command
/// that sends the body: the command starts with `curl ` and ends with
/// `-d '<body>' -v`, whether or not the request has headers.
pub proof fn lemma_curl_command_sends_body(r: HttpRequestView, b: Seq<char>)
    requires
        r.body == Some(b),
        b.len() > 0,
    ensures
        export_spec(r, RequestFormat::CurlCommand) matches Some(t) && ends_with(t, " -d '"@ + b + "' -v"@) && t.take(
            5,
        ) == "curl "@,
{
    reveal_strlit(" ");
    reveal_strlit("-d '");
    reveal_strlit("'");
    reveal_strlit(" -v");
    reveal_strlit(" -d '");
    reveal_strlit("' -v");
    reveal_strlit("curl ");
    let t = curl_command(r);
    let verb_flag = if r.verb == "GET"@ {
        Seq::empty()
    } else {
        "-X "@ + r.verb + " "@
    };
    let head = "curl "@ + verb_flag + r.target + " --http"@ + r.http_version;
    let tail = " -d '"@ + b + "' -v"@;
    if r.headers.len() == 0 {
        assert(t =~= head + tail);
        lemma_ends_with_concat(head, tail);
    } else {
        let h = curl_header_args(r.headers);
        assert(t =~= (head + " "@ + h) + tail);
        lemma_ends_with_concat(head + " "@ + h, tail);
    }
    assert(t.take(5) =~= "curl "@);
}

/// The `-H` argument of a header.
pub open spec fn curl_header_arg(h: (Seq<char>, Seq<char>)) -> Seq<char> {
    "-H \""@ + h.0 + ": "@ + h.1 + "\""@
}

proof fn lemma_contains_within(p: Seq<char>, a: Seq<char>, q: Seq<char>, x: Seq<char>)
    requires
        contains_text(a, x),
    ensures
        contains_text(p + a + q, x),
{
    let i = choose|i: int| 0 <= i && i + x.len() <= a.len() && #[trigger] a.subrange(i, i + x.len()) == x;
    assert((p + a + q).subrange(p.len() + i, p.len() + i + x.len()) =~= a.subrange(i, i + x.len()));
}

proof fn lemma_contains_self(x: Seq<char>)
    ensures
        contains_text(x, x),
{
    let i: int = 0;
    assert(x.subrange(i, i + x.len()) =~= x);
}

proof fn lemma_header_args_contain(headers: Seq<(Seq<char>, Seq<char>)>)
    ensures
        forall|i: int| 0 <= i < headers.len() ==> contains_text(curl_header_args(headers), curl_header_arg(#[trigger] headers[i])),
    decreases headers.len(),
{
    if headers.len() > 0 {
        let t = headers.drop_last();
        let last = curl_header_arg(headers.last());
        lemma_header_args_contain(t);
        assert forall|i: int| 0 <= i < headers.len() implies contains_text(curl_header_args(headers), curl_header_arg(#[trigger] headers[i])) by {
            if headers.len() == 1 {
                assert(headers[i] == headers.last());
                lemma_contains_self(last);
            } else if i < t.len() {
                assert(headers[i] == t[i]);
                lemma_contains_within(Seq::empty(), curl_header_args(t), " "@ + last, curl_header_arg(t[i]));
                assert(Seq::<char>::empty() + curl_header_args(t) + (" "@ + last) =~= curl_header_args(headers));
            } else {
                assert(headers[i] == headers.last());
                lemma_contains_self(last);
                lemma_contains_within(curl_header_args(t) + " "@, last, Seq::empty(), last);
                assert(curl_header_args(t) + " "@ + last + Seq::<char>::empty() =~= curl_header_args(headers));
            }
        }
    }
}

/// A request exported as a curl command passes each of its headers as a
/// `-H "name: value"` argument.
pub proof fn lemma_curl_command_sends_headers(r: HttpRequestView)
    ensures
        export_spec(r, RequestFormat::CurlCommand) matches Some(t) && forall|i: int|
            0 <= i < r.headers.len() ==> contains_text(t, curl_header_arg(#[trigger] r.headers[i])),
{
    let t = curl_command(r);
    if r.headers.len() > 0 {
        let verb_flag = if r.verb == "GET"@ {
            Seq::empty()
        } else {
            "-X "@ + r.verb + " "@
        };
        let head = "curl "@ + verb_flag + r.target + " --http"@ + r.http_version + " "@;
        let h = curl_header_args(r.headers);
        let body = match r.body {
            Some(b) => if b.len() == 0 {
                None
            } else {
                Some("-d '"@ + b + "'"@)
            },
            None => None,
        };
        let tail = match body {
            Some(b) => " "@ + b + " -v"@,
            None => " -v"@,
        };
        assert(t =~= head + h + tail);
        lemma_header_args_contain(r.headers);
        assert forall|i: int| 0 <= i < r.headers.len() implies contains_text(t, curl_header_arg(#[trigger] r.headers[i])) by {
            lemma_contains_within(head, h, tail, curl_header_arg(r.headers[i]));
        }
    }
}

} // verus!
