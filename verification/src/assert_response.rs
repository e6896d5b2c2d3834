//! Comparing an expected response with the actual one.
use crate::maps::{keys_unique, lookup_first};
use crate::text::{decimal, decimal_string, push_str, str_eq};
use crate::types::http::{headers_view, opt_view, HttpResponse, HttpResponseView, HttpStatusCode, HttpVersion};
use vstd::prelude::*;
use vstd::string::*;

verus! {

/// One difference between an expected and an actual response.
#[derive(Debug, Clone, PartialEq)]
pub enum ResponseDiff {
    StatusCode { expected: HttpStatusCode, actual: HttpStatusCode },
    StatusText { expected: String, actual: String },
    HttpVersion { expected: HttpVersion, actual: HttpVersion },
    MissingHeader(String),
    MismatchHeaderValue { header: String, expected: String, actual: String },
    Body { expected: Option<String>, actual: Option<String> },
}

/// What a [ResponseDiff] holds, as plain values.
pub ghost enum ResponseDiffView {
    StatusCode { expected: u16, actual: u16 },
    StatusText { expected: Seq<char>, actual: Seq<char> },
    HttpVersion { expected: Seq<char>, actual: Seq<char> },
    MissingHeader(Seq<char>),
    MismatchHeaderValue { header: Seq<char>, expected: Seq<char>, actual: Seq<char> },
    Body { expected: Option<Seq<char>>, actual: Option<Seq<char>> },
}

impl View for ResponseDiff {
    type V = ResponseDiffView;

    open spec fn view(&self) -> ResponseDiffView {
        match self {
            ResponseDiff::StatusCode { expected, actual } => ResponseDiffView::StatusCode {
                expected: expected@,
                actual: actual@,
            },
            ResponseDiff::StatusText { expected, actual } => ResponseDiffView::StatusText {
                expected: expected@,
                actual: actual@,
            },
            ResponseDiff::HttpVersion { expected, actual } => ResponseDiffView::HttpVersion {
                expected: expected@,
                actual: actual@,
            },
            ResponseDiff::MissingHeader(h) => ResponseDiffView::MissingHeader(h@),
            ResponseDiff::MismatchHeaderValue { header, expected, actual } => ResponseDiffView::MismatchHeaderValue {
                header: header@,
                expected: expected@,
                actual: actual@,
            },
            ResponseDiff::Body { expected, actual } => ResponseDiffView::Body {
                expected: opt_view(*expected),
                actual: opt_view(*actual),
            },
        }
    }
}

impl ResponseDiff {
    /// A copy of this difference.
    pub fn copy(&self) -> (res: Self)
        ensures
            res@ == self@,
    {
        match self {
            ResponseDiff::StatusCode { expected, actual } => ResponseDiff::StatusCode {
                expected: expected.copy(),
                actual: actual.copy(),
            },
            ResponseDiff::StatusText { expected, actual } => ResponseDiff::StatusText {
                expected: expected.clone(),
                actual: actual.clone(),
            },
            ResponseDiff::HttpVersion { expected, actual } => ResponseDiff::HttpVersion {
                expected: expected.copy(),
                actual: actual.copy(),
            },
            ResponseDiff::MissingHeader(h) => ResponseDiff::MissingHeader(h.clone()),
            ResponseDiff::MismatchHeaderValue { header, expected, actual } => ResponseDiff::MismatchHeaderValue {
                header: header.clone(),
                expected: expected.clone(),
                actual: actual.clone(),
            },
            ResponseDiff::Body { expected, actual } => ResponseDiff::Body {
                expected: copy_opt(expected),
                actual: copy_opt(actual),
            },
        }
    }
}

fn copy_opt(o: &Option<String>) -> (res: Option<String>)
    ensures
        opt_view(res) == opt_view(*o),
{
    match o {
        Some(s) => Some(s.clone()),
        None => None,
    }
}

/// The differences found, and the expected response.
#[derive(Debug, PartialEq)]
pub struct ResponseDiffs(pub Vec<ResponseDiff>, pub HttpResponse);

/// Plain view of a list of differences.
pub open spec fn diffs_view(d: Seq<ResponseDiff>) -> Seq<ResponseDiffView> {
    d.map_values(|x: ResponseDiff| x@)
}

/// The differences of the expected headers, in their order: an expected
/// header that the actual response lacks, or whose first actual value of the
/// same name differs.
pub open spec fn header_diffs(expected: Seq<(Seq<char>, Seq<char>)>, actual: Seq<(Seq<char>, Seq<char>)>) -> Seq<ResponseDiffView>
    decreases expected.len(),
{
    if expected.len() == 0 {
        Seq::empty()
    } else {
        let rest = header_diffs(expected.drop_last(), actual);
        let (name, value) = expected.last();
        match lookup_first(actual, name) {
            Some(v) => if v == value {
                rest
            } else {
                rest.push(ResponseDiffView::MismatchHeaderValue { header: name, expected: value, actual: v })
            },
            None => rest.push(ResponseDiffView::MissingHeader(name)),
        }
    }
}

/// All differences of `actual` from `expected`: the status code, the status
/// text, the expected headers and, when a body is expected, the body. The
/// HTTP version is not compared.
pub open spec fn response_diffs(expected: HttpResponseView, actual: HttpResponseView) -> Seq<ResponseDiffView> {
    let code = if expected.status_code != actual.status_code {
        seq![ResponseDiffView::StatusCode { expected: expected.status_code, actual: actual.status_code }]
    } else {
        Seq::empty()
    };
    let text = if expected.status_text != actual.status_text {
        seq![ResponseDiffView::StatusText { expected: expected.status_text, actual: actual.status_text }]
    } else {
        Seq::empty()
    };
    let body = if expected.body is Some && expected.body != actual.body {
        seq![ResponseDiffView::Body { expected: expected.body, actual: actual.body }]
    } else {
        Seq::empty()
    };
    code + text + header_diffs(expected.headers, actual.headers) + body
}

fn opt_eq(a: &Option<String>, b: &Option<String>) -> (res: bool)
    ensures
        res == (opt_view(*a) == opt_view(*b)),
{
    match (a, b) {
        (Some(x), Some(y)) => str_eq(x.as_str(), y.as_str()),
        (None, None) => true,
        _ => false,
    }
}

fn first_header<'a>(headers: &'a Vec<(String, String)>, name: &str) -> (res: Option<&'a String>)
    ensures
        match res {
            Some(v) => lookup_first(headers_view(headers@), name@) == Some(v@),
            None => lookup_first(headers_view(headers@), name@) is None,
        },
{
    let ghost hv = headers_view(headers@);
    let n = headers.len();
    let mut i: usize = 0;
    assert(hv.skip(0) =~= hv);
    while i < n
        invariant
            n == headers@.len(),
            hv == headers_view(headers@),
            i <= n,
            lookup_first(hv.skip(i as int), name@) == lookup_first(hv, name@),
        decreases n - i,
    {
        proof {
            assert(hv.skip(i as int).drop_first() =~= hv.skip(i + 1));
            assert(hv.skip(i as int)[0] == hv[i as int]);
        }
        if str_eq(headers[i].0.as_str(), name) {
            return Some(&headers[i].1);
        }
        i += 1;
    }
    proof {
        assert(hv.skip(n as int) =~= Seq::<(Seq<char>, Seq<char>)>::empty());
    }
    None
}

/// Asserts that the `actual` response matches the `expected` response. Returns an error if there are any differences.
pub fn assert_response(expected: &HttpResponse, actual: &HttpResponse) -> (res: Result<(), Box<ResponseDiffs>>)
    ensures
        match res {
            Ok(()) => response_diffs(expected@, actual@).len() == 0,
            Err(d) => diffs_view(d.0@) == response_diffs(expected@, actual@) && d.0@.len() > 0 && d.1@ == expected@,
        },
{
    let mut differences: Vec<ResponseDiff> = Vec::new();
    let ghost e = expected@;
    let ghost a = actual@;

    if expected.status_code.code() != actual.status_code.code() {
        differences.push(ResponseDiff::StatusCode {
            expected: expected.status_code.copy(),
            actual: actual.status_code.copy(),
        });
    }
    if !str_eq(expected.status_text.as_str(), actual.status_text.as_str()) {
        differences.push(ResponseDiff::StatusText {
            expected: expected.status_text.clone(),
            actual: actual.status_text.clone(),
        });
    }
    let ghost head = diffs_view(differences@);
    let ghost ehv = headers_view(expected.headers@);
    let n = expected.headers.len();
    let mut i: usize = 0;
    while i < n
        invariant
            n == expected.headers@.len(),
            ehv == headers_view(expected.headers@),
            e == expected@,
            a == actual@,
            i <= n,
            diffs_view(differences@) == head + header_diffs(ehv.take(i as int), a.headers),
        decreases n - i,
    {
        proof {
            assert(ehv.take(i + 1).drop_last() =~= ehv.take(i as int));
            assert(ehv.take(i + 1).last() == ehv[i as int]);
        }
        let (key, value) = (&expected.headers[i].0, &expected.headers[i].1);
        let ghost before = diffs_view(differences@);
        match first_header(&actual.headers, key.as_str()) {
            Some(actual_value) => {
                if !str_eq(actual_value.as_str(), value.as_str()) {
                    differences.push(ResponseDiff::MismatchHeaderValue {
                        header: key.clone(),
                        expected: value.clone(),
                        actual: actual_value.clone(),
                    });
                    assert(diffs_view(differences@) =~= before.push(
                        ResponseDiffView::MismatchHeaderValue { header: key@, expected: value@, actual: actual_value@ }));
                }
            },
            None => {
                differences.push(ResponseDiff::MissingHeader(key.clone()));
                assert(diffs_view(differences@) =~= before.push(ResponseDiffView::MissingHeader(key@)));
            },
        }
        i += 1;
    }
    assert(ehv.take(n as int) =~= ehv);
    let ghost before_body = diffs_view(differences@);
    if expected.body.is_some() && !opt_eq(&expected.body, &actual.body) {
        differences.push(ResponseDiff::Body {
            expected: copy_opt(&expected.body),
            actual: copy_opt(&actual.body),
        });
        assert(diffs_view(differences@) =~= before_body.push(
            ResponseDiffView::Body { expected: e.body, actual: a.body }));
    }
    proof {
        assert(diffs_view(differences@) =~= response_diffs(e, a));
    }
    if differences.len() > 0 {
        return Err(Box::new(ResponseDiffs(differences, expected.copy())));
    }
    Ok(())
}

/// Comparing a response with itself finds no difference, when no header name
/// occurs twice in it.
pub proof fn lemma_assert_response_reflexive(r: HttpResponseView)
    requires
        keys_unique(r.headers),
    ensures
        response_diffs(r, r).len() == 0,
{
    lemma_header_diffs_self(r.headers, r.headers.len() as int);
    assert(r.headers.take(r.headers.len() as int) =~= r.headers);
}

proof fn lemma_header_diffs_self(h: Seq<(Seq<char>, Seq<char>)>, k: int)
    requires
        keys_unique(h),
        0 <= k <= h.len(),
    ensures
        header_diffs(h.take(k), h).len() == 0,
    decreases k,
{
    if k > 0 {
        assert(h.take(k).drop_last() =~= h.take(k - 1));
        lemma_header_diffs_self(h, k - 1);
        lemma_lookup_first_unique(h, k - 1);
    }
}

proof fn lemma_lookup_first_unique(h: Seq<(Seq<char>, Seq<char>)>, i: int)
    requires
        keys_unique(h),
        0 <= i < h.len(),
    ensures
        lookup_first(h, h[i].0) == Some(h[i].1),
    decreases i,
{
    if i > 0 {
        let t = h.drop_first();
        assert(keys_unique(t)) by {
            assert forall|a: int, b: int| 0 <= a < b < t.len() implies t[a].0 != t[b].0 by {
                assert(t[a] == h[a + 1] && t[b] == h[b + 1]);
            }
        }
        assert(t[i - 1] == h[i]);
        assert(h[0].0 != h[i].0);
        lemma_lookup_first_unique(t, i - 1);
    }
}

/// A difference of a kind (0 HTTP version, 1 status code, 2 status text,
/// 3 body) as expected and actual text; `None` for another kind.
pub open spec fn kind_texts(d: ResponseDiffView, kind: int) -> Option<(Seq<char>, Seq<char>)> {
    match d {
        ResponseDiffView::HttpVersion { expected, actual } => if kind == 0 {
            Some((expected, actual))
        } else {
            None
        },
        ResponseDiffView::StatusCode { expected, actual } => if kind == 1 {
            Some((decimal(expected as nat), decimal(actual as nat)))
        } else {
            None
        },
        ResponseDiffView::StatusText { expected, actual } => if kind == 2 {
            Some((expected, actual))
        } else {
            None
        },
        ResponseDiffView::Body { expected, actual } => if kind == 3 {
            Some(
                (
                    match expected {
                        Some(t) => t,
                        None => Seq::empty(),
                    },
                    match actual {
                        Some(t) => t,
                        None => Seq::empty(),
                    },
                ),
            )
        } else {
            None
        },
        _ => None,
    }
}

/// The last difference of a kind, as in [kind_texts].
pub open spec fn last_of_kind(d: Seq<ResponseDiffView>, kind: int) -> Option<(Seq<char>, Seq<char>)>
    decreases d.len(),
{
    if d.len() == 0 {
        None
    } else {
        match kind_texts(d.last(), kind) {
            Some(p) => Some(p),
            None => last_of_kind(d.drop_last(), kind),
        }
    }
}

/// The header lines that differ, as expected and actual lines.
pub open spec fn header_lines_diff(d: Seq<ResponseDiffView>) -> Seq<(Seq<char>, Seq<char>)>
    decreases d.len(),
{
    if d.len() == 0 {
        Seq::empty()
    } else {
        let rest = header_lines_diff(d.drop_last());
        match d.last() {
            ResponseDiffView::MissingHeader(h) => rest.push((h + ": ..."@, Seq::empty())),
            ResponseDiffView::MismatchHeaderValue { header, expected, actual } => rest.push(
                (header + ": "@ + expected, header + ": "@ + actual),
            ),
            _ => rest,
        }
    }
}

/// A status line `HTTP/<version> <code> <text>`.
pub open spec fn status_line(version: Seq<char>, code: Seq<char>, text: Seq<char>) -> Seq<char> {
    "HTTP/"@ + version + " "@ + code + " "@ + text
}

/// The texts to compare when showing differences.
pub ghost struct DiffTextsView {
    pub first_line: Option<(Seq<char>, Seq<char>)>,
    pub headers: Seq<(Seq<char>, Seq<char>)>,
    pub body: Option<(Seq<char>, Seq<char>)>,
}

/// The status line as expected and as received (parts without a difference
/// taken from the expected response), when the version, code or text differ;
/// the differing header lines; the bodies.
pub open spec fn diff_texts_spec(d: Seq<ResponseDiffView>, expected: HttpResponseView) -> DiffTextsView {
    let v = last_of_kind(d, 0);
    let c = last_of_kind(d, 1);
    let t = last_of_kind(d, 2);
    let pick = |o: Option<(Seq<char>, Seq<char>)>, dflt: Seq<char>, second: bool|
        match o {
            Some(p) => if second { p.1 } else { p.0 },
            None => dflt,
        };
    let code = decimal(expected.status_code as nat);
    DiffTextsView {
        first_line: if v is None && c is None && t is None {
            None
        } else {
            Some((
                status_line(pick(v, expected.http_version, false), pick(c, code, false), pick(t, expected.status_text, false)),
                status_line(pick(v, expected.http_version, true), pick(c, code, true), pick(t, expected.status_text, true)),
            ))
        },
        headers: header_lines_diff(d),
        body: last_of_kind(d, 3),
    }
}

/// The texts to compare when showing the differences of a response.
#[derive(Debug, PartialEq)]
pub struct DiffTexts {
    /// The status line, as expected and as received.
    pub first_line: Option<(String, String)>,
    /// Each differing header line, as expected and as received.
    pub headers: Vec<(String, String)>,
    /// The body, as expected and as received.
    pub body: Option<(String, String)>,
}

pub open spec fn opt_pair_view(o: Option<(String, String)>) -> Option<(Seq<char>, Seq<char>)> {
    match o {
        Some(p) => Some((p.0@, p.1@)),
        None => None,
    }
}

fn concat3(a: &str, b: &str, c: &str) -> (res: String)
    ensures
        res@ == a@ + b@ + c@,
{
    let mut out = a.to_owned();
    push_str(&mut out, b);
    push_str(&mut out, c);
    out
}

fn status_line_exec(version: &str, code: &str, text: &str) -> (res: String)
    ensures
        res@ == status_line(version@, code@, text@),
{
    let mut out = "HTTP/".to_owned();
    push_str(&mut out, version);
    push_str(&mut out, " ");
    push_str(&mut out, code);
    push_str(&mut out, " ");
    push_str(&mut out, text);
    proof {
        reveal_strlit("HTTP/");
        reveal_strlit(" ");
    }
    out
}

impl ResponseDiffs {
    /// The differences found
    pub fn diffs(&self) -> (res: Vec<ResponseDiff>)
        ensures
            diffs_view(res@) == diffs_view(self.0@),
    {
        let mut out: Vec<ResponseDiff> = Vec::new();
        let n = self.0.len();
        let mut i: usize = 0;
        while i < n
            invariant
                n == self.0@.len(),
                i <= n,
                diffs_view(out@) == diffs_view(self.0@.take(i as int)),
            decreases n - i,
        {
            let ghost before = out@;
            let d = self.0[i].copy();
            out.push(d);
            assert(diffs_view(out@) =~= diffs_view(before).push(self.0@[i as int]@));
            assert(diffs_view(self.0@.take(i + 1)) =~= diffs_view(self.0@.take(i as int)).push(self.0@[i as int]@));
            i += 1;
        }
        assert(self.0@.take(n as int) =~= self.0@);
        out
    }

    /// The texts that show the differences: what `to_diff_string` compares
    /// line by line.
    pub fn diff_texts(&self) -> (res: DiffTexts)
        ensures
            opt_pair_view(res.first_line) == diff_texts_spec(diffs_view(self.0@), self.1@).first_line,
            res.headers@.map_values(|p: (String, String)| (p.0@, p.1@)) == diff_texts_spec(
                diffs_view(self.0@),
                self.1@,
            ).headers,
            opt_pair_view(res.body) == diff_texts_spec(diffs_view(self.0@), self.1@).body,
    {
        let ghost dv = diffs_view(self.0@);
        let mut version: Option<(String, String)> = None;
        let mut code: Option<(String, String)> = None;
        let mut text: Option<(String, String)> = None;
        let mut body: Option<(String, String)> = None;
        let mut headers: Vec<(String, String)> = Vec::new();
        let n = self.0.len();
        let mut i: usize = 0;
        while i < n
            invariant
                n == self.0@.len(),
                dv == diffs_view(self.0@),
                i <= n,
                opt_pair_view(version) == last_of_kind(dv.take(i as int), 0),
                opt_pair_view(code) == last_of_kind(dv.take(i as int), 1),
                opt_pair_view(text) == last_of_kind(dv.take(i as int), 2),
                opt_pair_view(body) == last_of_kind(dv.take(i as int), 3),
                headers@.map_values(|p: (String, String)| (p.0@, p.1@)) == header_lines_diff(dv.take(i as int)),
            decreases n - i,
        {
            proof {
                assert(dv.take(i + 1).drop_last() =~= dv.take(i as int));
                assert(dv.take(i + 1).last() == self.0@[i as int]@);
            }
            let ghost hbefore = headers@.map_values(|p: (String, String)| (p.0@, p.1@));
            match &self.0[i] {
                ResponseDiff::HttpVersion { expected, actual } => {
                    version = Some((expected.as_str().to_owned(), actual.as_str().to_owned()));
                },
                ResponseDiff::StatusCode { expected, actual } => {
                    code = Some((decimal_string(expected.code() as u64), decimal_string(actual.code() as u64)));
                },
                ResponseDiff::StatusText { expected, actual } => {
                    text = Some((expected.clone(), actual.clone()));
                },
                ResponseDiff::Body { expected, actual } => {
                    let e = match expected {
                        Some(t) => t.clone(),
                        None => String::new(),
                    };
                    let a = match actual {
                        Some(t) => t.clone(),
                        None => String::new(),
                    };
                    body = Some((e, a));
                },
                ResponseDiff::MissingHeader(h) => {
                    let line = concat3(h.as_str(), ": ...", "");
                    headers.push((line, String::new()));
                    proof {
                        reveal_strlit(": ...");
                        reveal_strlit("");
                        assert(headers@.map_values(|p: (String, String)| (p.0@, p.1@)) =~= hbefore.push(
                            (h@ + ": ..."@, Seq::<char>::empty())));
                    }
                },
                ResponseDiff::MismatchHeaderValue { header, expected, actual } => {
                    let e = concat3(header.as_str(), ": ", expected.as_str());
                    let a = concat3(header.as_str(), ": ", actual.as_str());
                    headers.push((e, a));
                    assert(headers@.map_values(|p: (String, String)| (p.0@, p.1@)) =~= hbefore.push(
                        (header@ + ": "@ + expected@, header@ + ": "@ + actual@)));
                },
            }
            i += 1;
        }
        assert(dv.take(n as int) =~= dv);
        let first_line = if version.is_none() && code.is_none() && text.is_none() {
            None
        } else {
            let expected_code = decimal_string(self.1.status_code.code() as u64);
            let (ev, av) = match &version {
                Some((e, a)) => (e.as_str(), a.as_str()),
                None => (self.1.http_version.as_str(), self.1.http_version.as_str()),
            };
            let (ec, ac) = match &code {
                Some((e, a)) => (e.as_str(), a.as_str()),
                None => (expected_code.as_str(), expected_code.as_str()),
            };
            let (et, at) = match &text {
                Some((e, a)) => (e.as_str(), a.as_str()),
                None => (self.1.status_text.as_str(), self.1.status_text.as_str()),
            };
            Some((status_line_exec(ev, ec, et), status_line_exec(av, ac, at)))
        };
        DiffTexts { first_line, headers, body }
    }
}

/// How a line of a line diff changed.
#[derive(Debug, Clone, Copy, PartialEq, Eq, Structural)]
pub enum ChangeKind {
    Delete,
    Insert,
    Equal,
}

/// A line of a line diff: how it changed and its text.
#[derive(Debug, PartialEq)]
pub struct LineChange {
    pub kind: ChangeKind,
    pub text: String,
}

/// Plain view of line changes.
pub open spec fn changes_view(s: Seq<LineChange>) -> Seq<(ChangeKind, Seq<char>)> {
    s.map_values(|c: LineChange| (c.kind, c.text@))
}

/// The changes, line by line, that turn `expected` into `actual`.
pub uninterp spec fn line_changes(expected: Seq<char>, actual: Seq<char>) -> Seq<(ChangeKind, Seq<char>)>;

/// `similar::TextDiff::from_lines` of the two texts (the default Myers
/// algorithm, without a deadline), every change of every op in turn: its tag
/// and its text as `Display` writes it (with a line break added where the
/// line had none). Claimed: the result is the one named by [line_changes].
#[verifier::external_body]
fn line_diff(expected: &str, actual: &str) -> (res: Vec<LineChange>)
    ensures
        changes_view(res@) == line_changes(expected@, actual@),
{
    let diff = similar::TextDiff::from_lines(expected, actual);
    diff.ops().iter().flat_map(|op| diff.iter_changes(op)).map(|change| LineChange {
        kind: match change.tag() {
            similar::ChangeTag::Delete => ChangeKind::Delete,
            similar::ChangeTag::Insert => ChangeKind::Insert,
            similar::ChangeTag::Equal => ChangeKind::Equal,
        },
        text: change.to_string(),
    }).collect()
}

/// A piece of the shown differences of a response: a line break, or a
/// changed line.
#[derive(Debug, PartialEq)]
pub enum DiffPiece {
    LineBreak,
    Change(LineChange),
}

/// What a [DiffPiece] holds, as plain values.
pub ghost enum DiffPieceView {
    LineBreak,
    Change(ChangeKind, Seq<char>),
}

/// Plain view of pieces.
pub open spec fn pieces_view(s: Seq<DiffPiece>) -> Seq<DiffPieceView> {
    s.map_values(
        |p: DiffPiece| match p {
            DiffPiece::LineBreak => DiffPieceView::LineBreak,
            DiffPiece::Change(c) => DiffPieceView::Change(c.kind, c.text@),
        },
    )
}

/// Line changes as pieces, one for each.
pub open spec fn changes_as_pieces(changes: Seq<(ChangeKind, Seq<char>)>) -> Seq<DiffPieceView> {
    changes.map_values(|c: (ChangeKind, Seq<char>)| DiffPieceView::Change(c.0, c.1))
}

/// The line changes between two texts, as pieces.
pub open spec fn change_pieces(expected: Seq<char>, actual: Seq<char>) -> Seq<DiffPieceView> {
    changes_as_pieces(line_changes(expected, actual))
}

/// The line changes of each pair of texts in turn.
pub open spec fn pairs_change_pieces(pairs: Seq<(Seq<char>, Seq<char>)>) -> Seq<DiffPieceView>
    decreases pairs.len(),
{
    if pairs.len() == 0 {
        Seq::empty()
    } else {
        pairs_change_pieces(pairs.drop_last()) + change_pieces(pairs.last().0, pairs.last().1)
    }
}

/// The shown differences: a line break; the line changes of the status
/// line, then of each differing header line; then a line break and the line
/// changes of the body, when the bodies differ.
pub open spec fn diff_pieces_spec(t: DiffTextsView) -> Seq<DiffPieceView> {
    seq![DiffPieceView::LineBreak] + match t.first_line {
        Some((e, a)) => change_pieces(e, a),
        None => Seq::empty(),
    } + pairs_change_pieces(t.headers) + match t.body {
        Some((e, a)) => seq![DiffPieceView::LineBreak] + change_pieces(e, a),
        None => Seq::empty(),
    }
}

/// Append the line changes between two texts.
fn push_changes(out: &mut Vec<DiffPiece>, expected: &str, actual: &str)
    ensures
        pieces_view(final(out)@) == pieces_view(old(out)@) + change_pieces(expected@, actual@),
{
    let changes = line_diff(expected, actual);
    push_change_pieces(out, &changes);
}

/// Append a piece for each line change, in order.
pub fn push_change_pieces(out: &mut Vec<DiffPiece>, changes: &Vec<LineChange>)
    ensures
        pieces_view(final(out)@) == pieces_view(old(out)@) + changes_as_pieces(changes_view(changes@)),
{
    let ghost target = changes_as_pieces(changes_view(changes@));
    let ghost start = pieces_view(out@);
    let n = changes.len();
    let mut i: usize = 0;
    assert(start + target.take(0) =~= start);
    while i < n
        invariant
            n == changes@.len(),
            target == changes_as_pieces(changes_view(changes@)),
            i <= n,
            pieces_view(out@) == start + target.take(i as int),
        decreases n - i,
    {
        let ghost before = out@;
        out.push(DiffPiece::Change(LineChange { kind: changes[i].kind, text: changes[i].text.clone() }));
        proof {
            assert(changes_view(changes@)[i as int] == (changes@[i as int].kind, changes@[i as int].text@));
            assert(target[i as int] == DiffPieceView::Change(changes@[i as int].kind, changes@[i as int].text@));
            assert(pieces_view(out@) =~= pieces_view(before).push(target[i as int]));
            assert(target.take(i + 1) =~= target.take(i as int).push(target[i as int]));
        }
        i += 1;
    }
    assert(target.take(n as int) =~= target);
}

impl ResponseDiffs {
    /// The differences to show, as pieces: what `to_diff_string` writes,
    /// each changed line with its sign (`-`, `+` or a space) and styled by
    /// how it changed.
    pub fn diff_pieces(&self) -> (res: Vec<DiffPiece>)
        ensures
            pieces_view(res@) == diff_pieces_spec(diff_texts_spec(diffs_view(self.0@), self.1@)),
    {
        let texts = self.diff_texts();
        let ghost t = diff_texts_spec(diffs_view(self.0@), self.1@);
        let mut out: Vec<DiffPiece> = Vec::new();
        out.push(DiffPiece::LineBreak);
        let ghost first = seq![DiffPieceView::LineBreak] + match t.first_line {
            Some((e, a)) => change_pieces(e, a),
            None => Seq::<DiffPieceView>::empty(),
        };
        match &texts.first_line {
            Some((e, a)) => {
                push_changes(&mut out, e.as_str(), a.as_str());
            },
            None => {},
        }
        assert(pieces_view(out@) =~= first);
        let ghost hv = texts.headers@.map_values(|p: (String, String)| (p.0@, p.1@));
        let n = texts.headers.len();
        let mut i: usize = 0;
        assert(hv.take(0) =~= Seq::<(Seq<char>, Seq<char>)>::empty());
        assert(first + pairs_change_pieces(hv.take(0)) =~= first);
        while i < n
            invariant
                n == texts.headers@.len(),
                hv == texts.headers@.map_values(|p: (String, String)| (p.0@, p.1@)),
                i <= n,
                pieces_view(out@) == first + pairs_change_pieces(hv.take(i as int)),
            decreases n - i,
        {
            proof {
                assert(hv.take(i + 1).drop_last() =~= hv.take(i as int));
                assert(hv.take(i + 1).last() == (texts.headers@[i as int].0@, texts.headers@[i as int].1@));
            }
            push_changes(&mut out, texts.headers[i].0.as_str(), texts.headers[i].1.as_str());
            proof {
                assert(first + pairs_change_pieces(hv.take(i + 1)) =~= first + pairs_change_pieces(hv.take(i as int))
                    + change_pieces(hv[i as int].0, hv[i as int].1));
            }
            i += 1;
        }
        assert(hv.take(n as int) =~= hv);
        let ghost middle = pieces_view(out@);
        match &texts.body {
            Some((e, a)) => {
                out.push(DiffPiece::LineBreak);
                assert(pieces_view(out@) =~= middle.push(DiffPieceView::LineBreak));
                push_changes(&mut out, e.as_str(), a.as_str());
                assert(pieces_view(out@) =~= middle + (seq![DiffPieceView::LineBreak] + change_pieces(e@, a@)));
            },
            None => {
                assert(pieces_view(out@) =~= middle + Seq::<DiffPieceView>::empty());
            },
        }
        out
    }
}


proof fn lemma_lookup_first_concat(s: Seq<(Seq<char>, Seq<char>)>, t: Seq<(Seq<char>, Seq<char>)>, k: Seq<char>)
    ensures
        lookup_first(s + t, k) == match lookup_first(s, k) {
            Some(v) => Some(v),
            None => lookup_first(t, k),
        },
    decreases s.len(),
{
    if s.len() > 0 {
        assert((s + t).drop_first() =~= s.drop_first() + t);
        assert((s + t)[0] == s[0]);
        lemma_lookup_first_concat(s.drop_first(), t, k);
    } else {
        assert(s + t =~= t);
    }
}

/// The header names of a list of headers.
pub open spec fn header_names(h: Seq<(Seq<char>, Seq<char>)>) -> Seq<Seq<char>> {
    h.map_values(|x: (Seq<char>, Seq<char>)| x.0)
}

proof fn lemma_lookup_first_none_names(h: Seq<(Seq<char>, Seq<char>)>, k: Seq<char>)
    requires
        !header_names(h).contains(k),
    ensures
        lookup_first(h, k) is None,
    decreases h.len(),
{
    if h.len() > 0 {
        assert(header_names(h)[0] == h[0].0);
        let t = h.drop_first();
        assert(!header_names(t).contains(k)) by {
            if header_names(t).contains(k) {
                let i = choose|i: int| 0 <= i < header_names(t).len() && header_names(t)[i] == k;
                assert(header_names(h)[i + 1] == k);
            }
        }
        lemma_lookup_first_none_names(t, k);
    }
}

proof fn lemma_lookup_first_some_names(h: Seq<(Seq<char>, Seq<char>)>, k: Seq<char>)
    requires
        header_names(h).contains(k),
    ensures
        lookup_first(h, k) is Some,
    decreases h.len(),
{
    let i = choose|i: int| 0 <= i < header_names(h).len() && header_names(h)[i] == k;
    if h[0].0 != k {
        let t = h.drop_first();
        assert(header_names(t)[i - 1] == k);
        lemma_lookup_first_some_names(t, k);
    }
}

proof fn lemma_header_diffs_extra(e: Seq<(Seq<char>, Seq<char>)>, a: Seq<(Seq<char>, Seq<char>)>, x: Seq<(Seq<char>, Seq<char>)>)
    requires
        forall|i: int| 0 <= i < e.len() ==> header_names(a).contains(#[trigger] e[i].0) || !header_names(x).contains(e[i].0),
    ensures
        header_diffs(e, a + x) == header_diffs(e, a),
    decreases e.len(),
{
    if e.len() > 0 {
        let t = e.drop_last();
        assert forall|i: int| 0 <= i < t.len() implies header_names(a).contains(#[trigger] t[i].0) || !header_names(x).contains(t[i].0) by {
            assert(t[i] == e[i]);
        }
        lemma_header_diffs_extra(t, a, x);
        let name = e.last().0;
        assert(e.last() == e[e.len() - 1]);
        lemma_lookup_first_concat(a, x, name);
        if header_names(a).contains(name) {
            lemma_lookup_first_some_names(a, name);
        } else {
            lemma_lookup_first_none_names(x, name);
        }
    }
}

/// Headers that only the actual response has make no difference: adding
/// headers to the actual response changes nothing when each expected header
/// name is already among its headers or is not among the added ones.
pub proof fn lemma_extra_headers_ignored(expected: HttpResponseView, actual: HttpResponseView, extra: Seq<(Seq<char>, Seq<char>)>)
    requires
        forall|i: int| 0 <= i < expected.headers.len() ==> header_names(actual.headers).contains(#[trigger] expected.headers[i].0)
            || !header_names(extra).contains(expected.headers[i].0),
    ensures
        response_diffs(expected, HttpResponseView { headers: actual.headers + extra, ..actual }) == response_diffs(expected, actual),
{
    lemma_header_diffs_extra(expected.headers, actual.headers, extra);
}

/// What is not written in the expected response is not matched: when the
/// expected response has no body, the actual body makes no difference.
pub proof fn lemma_unexpected_body_ignored(expected: HttpResponseView, actual: HttpResponseView, body: Option<Seq<char>>)
    requires
        expected.body is None,
    ensures
        response_diffs(expected, HttpResponseView { body, ..actual }) == response_diffs(expected, actual),
{
}

/// The matching rules: the status code and the status text match exactly,
/// each header of the expected response has the written value in the actual
/// response (its first header of that name counts), and the body, when one
/// is expected, matches exactly.
pub open spec fn matches_expected(expected: HttpResponseView, actual: HttpResponseView) -> bool {
    &&& expected.status_code == actual.status_code
    &&& expected.status_text == actual.status_text
    &&& forall|i: int| 0 <= i < expected.headers.len() ==> lookup_first(actual.headers, #[trigger] expected.headers[i].0)
        == Some(expected.headers[i].1)
    &&& (expected.body is Some ==> expected.body == actual.body)
}

proof fn lemma_header_diffs_empty(expected: Seq<(Seq<char>, Seq<char>)>, actual: Seq<(Seq<char>, Seq<char>)>)
    ensures
        header_diffs(expected, actual).len() == 0 <==> forall|i: int| 0 <= i < expected.len() ==> lookup_first(
            actual,
            #[trigger] expected[i].0,
        ) == Some(expected[i].1),
    decreases expected.len(),
{
    if expected.len() > 0 {
        let t = expected.drop_last();
        lemma_header_diffs_empty(t, actual);
        if header_diffs(expected, actual).len() == 0 {
            assert forall|i: int| 0 <= i < expected.len() implies lookup_first(actual, #[trigger] expected[i].0) == Some(
                expected[i].1,
            ) by {
                if i < t.len() {
                    assert(expected[i] == t[i]);
                }
            }
        }
        if forall|i: int| 0 <= i < expected.len() ==> lookup_first(actual, #[trigger] expected[i].0) == Some(expected[i].1) {
            assert forall|i: int| 0 <= i < t.len() implies lookup_first(actual, #[trigger] t[i].0) == Some(t[i].1) by {
                assert(expected[i] == t[i]);
            }
            assert(lookup_first(actual, expected[expected.len() - 1].0) == Some(expected[expected.len() - 1].1));
        }
    }
}

/// A response passes [assert_response] exactly when it follows the matching
/// rules (see [matches_expected]).
pub proof fn lemma_response_matching_rules(expected: HttpResponseView, actual: HttpResponseView)
    ensures
        response_diffs(expected, actual).len() == 0 <==> matches_expected(expected, actual),
{
    lemma_header_diffs_empty(expected.headers, actual.headers);
}

} // verus!
