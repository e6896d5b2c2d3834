//! What sending a request needs from it, and what a response's status line
//! gives; the sending itself is done by an HTTP client.
use crate::text::{chars_of, decimal, string_from_chars};
use crate::types::http::{headers_view, is_valid_status_code, HttpRequest, HttpRequestView, HttpStatusCode};
use vstd::prelude::*;
use vstd::string::*;

verus! {

/// Fetch using an [HttpRequest] that returns an [HttpResponse](crate::types::http::HttpResponse)
pub struct HttpRequestFetcher(pub HttpRequest);

impl From<HttpRequest> for HttpRequestFetcher {
    fn from(value: HttpRequest) -> (res: Self)
        ensures
            res.0 == value,
    {
        Self(value)
    }
}

impl vstd::std_specs::convert::FromSpecImpl<HttpRequest> for HttpRequestFetcher {
    open spec fn obeys_from_spec() -> bool {
        true
    }

    open spec fn from_spec(v: HttpRequest) -> Self {
        HttpRequestFetcher(v)
    }
}

impl HttpRequestFetcher {
    /// The request's method
    pub fn request_method(&self) -> (res: &str)
        ensures
            res@ == self.0@.verb,
    {
        self.0.verb.as_str()
    }

    /// The URL to send the request to: its target
    pub fn request_url(&self) -> (res: &str)
        ensures
            res@ == self.0@.target,
    {
        self.0.target.as_str()
    }

    /// The body to send: the request's body, empty when it has none
    pub fn body(&self) -> (res: String)
        ensures
            res@ == match self.0@.body {
                Some(b) => b,
                None => Seq::empty(),
            },
    {
        match &self.0.body {
            Some(b) => b.clone(),
            None => String::new(),
        }
    }

    /// The headers to send, in order
    pub fn request_headers(&self) -> (res: Vec<(&str, &str)>)
        ensures
            res@.map_values(|h: (&str, &str)| (h.0@, h.1@)) == self.0@.headers,
    {
        let ghost target = self.0@.headers;
        let mut out: Vec<(&str, &str)> = Vec::new();
        let n = self.0.headers.len();
        let mut i: usize = 0;
        while i < n
            invariant
                n == self.0.headers@.len(),
                target == headers_view(self.0.headers@),
                i <= n,
                out@.map_values(|h: (&str, &str)| (h.0@, h.1@)) == target.take(i as int),
            decreases n - i,
        {
            let ghost before = out@;
            out.push((self.0.headers[i].0.as_str(), self.0.headers[i].1.as_str()));
            proof {
                assert(out@.map_values(|h: (&str, &str)| (h.0@, h.1@)) =~= before.map_values(
                    |h: (&str, &str)| (h.0@, h.1@),
                ).push(target[i as int]));
                assert(target.take(i + 1) =~= target.take(i as int).push(target[i as int]));
            }
            i += 1;
        }
        assert(target.take(n as int) =~= target);
        out
    }
}

/// The value of a text of decimal digits.
pub open spec fn decimal_value(s: Seq<char>) -> int
    decreases s.len(),
{
    if s.len() == 0 {
        0
    } else {
        decimal_value(s.drop_last()) * 10 + (s.last() as int - '0' as int)
    }
}

/// A text of one or more decimal digits.
pub open spec fn all_digits(s: Seq<char>) -> bool {
    s.len() > 0 && forall|i: int| 0 <= i < s.len() ==> '0' <= #[trigger] s[i] <= '9'
}

/// Where the first space of a text is, or its length.
pub open spec fn first_space(s: Seq<char>) -> int
    decreases s.len(),
{
    if s.len() == 0 {
        0
    } else if s[0] == ' ' {
        0
    } else {
        1 + first_space(s.drop_first())
    }
}

/// A status line `<code> <text>` whose code is a valid status code.
pub open spec fn status_line_ok(s: Seq<char>) -> bool {
    let k = first_space(s);
    &&& k < s.len()
    &&& all_digits(s.take(k))
    &&& 100 <= decimal_value(s.take(k)) <= 599
}

proof fn lemma_first_space(s: Seq<char>)
    ensures
        0 <= first_space(s) <= s.len(),
        first_space(s) < s.len() ==> s[first_space(s)] == ' ',
        forall|i: int| 0 <= i < first_space(s) ==> s[i] != ' ',
    decreases s.len(),
{
    if s.len() > 0 && s[0] != ' ' {
        lemma_first_space(s.drop_first());
        assert forall|i: int| 0 <= i < first_space(s) implies s[i] != ' ' by {
            if i > 0 {
                assert(s[i] == s.drop_first()[i - 1]);
            }
        }
    }
}

proof fn lemma_decimal_value_bound(s: Seq<char>)
    requires
        forall|i: int| 0 <= i < s.len() ==> '0' <= #[trigger] s[i] <= '9',
    ensures
        0 <= decimal_value(s),
    decreases s.len(),
{
    if s.len() > 0 {
        lemma_decimal_value_bound(s.drop_last());
        assert(s.last() == s[s.len() - 1]);
    }
}

/// A response's status code and status text, from a status line such as
/// `200 OK`: the digits before the first space, and what follows it
pub fn status_code_and_text(status: &str) -> (res: (HttpStatusCode, String))
    requires
        status_line_ok(status@),
    ensures
        res.0@ == decimal_value(status@.take(first_space(status@))),
        res.1@ == status@.skip(first_space(status@) + 1),
{
    let cs = chars_of(status);
    let ghost s = status@;
    proof {
        lemma_first_space(s);
    }
    let ghost k = first_space(s);
    let n = cs.len();
    let mut i: usize = 0;
    let mut value: u64 = 0;
    while cs[i] != ' '
        invariant
            cs@ == s,
            n == s.len(),
            k == first_space(s),
            status_line_ok(s),
            0 <= k < n,
            i <= k,
            forall|j: int| 0 <= j < k ==> s[j] != ' ',
            s[k] == ' ',
            value == decimal_value(s.take(i as int)),
        decreases k - i,
    {
        let c = cs[i];
        proof {
            assert(s.take(k).take(i + 1) =~= s.take(i + 1));
            assert(s.take(i + 1).drop_last() =~= s.take(i as int));
            assert(s.take(k)[i as int] == c);
            assert forall|j: int| 0 <= j < i + 1 implies '0' <= #[trigger] s.take(i + 1)[j] <= '9' by {
                assert(s.take(i + 1)[j] == s.take(k)[j]);
            }
            lemma_decimal_value_bound(s.take(i + 1));
            lemma_decimal_prefix_bound(s.take(k), i + 1);
        }
        let d: u64 = ((c as u32) - ('0' as u32)) as u64;
        value = value * 10 + d;
        i += 1;
    }
    assert(i == k);
    let code = value as u16;
    let mut text: Vec<char> = Vec::new();
    let mut j = i + 1;
    while j < n
        invariant
            cs@ == s,
            n == s.len(),
            k < n,
            i == k,
            k + 1 <= j <= n,
            text@ == s.subrange(k + 1, j as int),
        decreases n - j,
    {
        text.push(cs[j]);
        assert(text@ =~= s.subrange(k + 1, j + 1));
        j += 1;
    }
    assert(text@ =~= s.skip(k + 1));
    (HttpStatusCode::new(code), string_from_chars(&text))
}

/// The value of a prefix of digits is at most that of the whole.
proof fn lemma_decimal_prefix_bound(s: Seq<char>, m: int)
    requires
        0 <= m <= s.len(),
        forall|i: int| 0 <= i < s.len() ==> '0' <= #[trigger] s[i] <= '9',
    ensures
        decimal_value(s.take(m)) <= decimal_value(s),
    decreases s.len() - m,
{
    if m < s.len() {
        let t = s.take(m + 1);
        assert(t.drop_last() =~= s.take(m));
        assert(t.last() == s[m]);
        assert forall|i: int| 0 <= i < t.len() implies '0' <= #[trigger] t[i] <= '9' by {
            assert(t[i] == s[i]);
        }
        lemma_decimal_value_bound(s.take(m));
        lemma_decimal_prefix_bound(s, m + 1);
        assert(decimal_value(s.take(m)) <= decimal_value(t)) by (nonlinear_arith)
            requires
                decimal_value(t) == decimal_value(s.take(m)) * 10 + (t.last() as int - '0' as int),
                0 <= decimal_value(s.take(m)),
                '0' <= t.last() <= '9',
        ;
    } else {
        assert(s.take(m) =~= s);
    }
}

} // verus!
