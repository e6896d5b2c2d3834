use vstd::prelude::*;
use vstd::string::*;
use vstd::utf8::*;

verus! {

/// `s` ends with `t`.
pub open spec fn ends_with(s: Seq<char>, t: Seq<char>) -> bool {
    s.len() >= t.len() && s.subrange(s.len() - t.len(), s.len() as int) == t
}

/// A text made of two parts ends with the second.
pub proof fn lemma_ends_with_concat(p: Seq<char>, t: Seq<char>)
    ensures
        ends_with(p + t, t),
{
    assert((p + t).subrange(p.len() as int, (p + t).len() as int) =~= t);
}

/// The bytes of a string, in UTF-8.
pub open spec fn bytes_of(s: Seq<char>) -> Seq<u8> {
    encode_utf8(s)
}

/// Length of a string in bytes (what `str::len` returns).
pub open spec fn byte_len(s: Seq<char>) -> nat {
    encode_utf8(s).len()
}

/// `&s[start..end]`: the part of `s` between two byte offsets that lie on
/// character boundaries.
pub fn str_slice<'a>(s: &'a str, start: usize, end: usize) -> (res: &'a str)
    requires
        start <= end <= s.spec_bytes().len(),
        is_char_boundary(s.spec_bytes(), start as int),
        is_char_boundary(s.spec_bytes(), end as int),
    ensures
        res.spec_bytes() == s.spec_bytes().subrange(start as int, end as int),
{
    let (head, _) = s.split_at(end);
    proof {
        let b = s.spec_bytes();
        encode_utf8_valid_utf8(s@);
        valid_utf8_split(b, end as int);
        let hb = head.spec_bytes();
        assert(hb =~= b.subrange(0, end as int));
        encode_utf8_valid_utf8(head@);
        if start == end {
            is_char_boundary_start_end_of_seq(hb);
        } else if start > 0 {
            is_char_boundary_iff_not_is_continuation_byte(b, start as int);
            is_char_boundary_iff_not_is_continuation_byte(hb, start as int);
            assert(hb[start as int] == b[start as int]);
        }
    }
    let (_, mid) = head.split_at(start);
    assert(mid.spec_bytes() =~= s.spec_bytes().subrange(start as int, end as int));
    mid
}

/// The characters of a string, collected into a vector.
pub fn chars_of(s: &str) -> (res: Vec<char>)
    ensures
        res@ == s@,
{
    let n = s.unicode_len();
    let mut res: Vec<char> = Vec::new();
    for i in 0..n
        invariant
            n == s@.len(),
            res@ == s@.take(i as int),
    {
        res.push(s.get_char(i));
        assert(res@ =~= s@.take(i + 1));
    }
    assert(res@ =~= s@);
    res
}

/// A string made of the given characters.
pub fn string_from_chars(chars: &Vec<char>) -> (res: String)
    ensures
        res@ == chars@,
{
    let mut out = String::new();
    let n = chars.len();
    let mut i: usize = 0;
    while i < n
        invariant
            n == chars@.len(),
            i <= n,
            out@ == chars@.take(i as int),
        decreases n - i,
    {
        push_char(&mut out, chars[i]);
        assert(out@ =~= chars@.take(i + 1));
        i += 1;
    }
    assert(chars@.take(n as int) =~= chars@);
    out
}

/// Append a string slice.
pub fn push_str(s: &mut String, other: &str)
    ensures
        final(s)@ == old(s)@ + other@,
{
    s.append(other)
}

/// `String::push`: append one character.
#[verifier::external_body]
pub(crate) fn push_char(s: &mut String, c: char)
    ensures
        final(s)@ == old(s)@.push(c),
{
    s.push(c)
}

/// Unicode `White_Space` (what `char::is_whitespace` tests).
pub open spec fn is_white_space(c: char) -> bool {
    ||| ('\u{9}' <= c <= '\u{d}')
    ||| c == ' '
    ||| c == '\u{85}'
    ||| c == '\u{a0}'
    ||| c == '\u{1680}'
    ||| ('\u{2000}' <= c <= '\u{200a}')
    ||| c == '\u{2028}'
    ||| c == '\u{2029}'
    ||| c == '\u{202f}'
    ||| c == '\u{205f}'
    ||| c == '\u{3000}'
}

pub fn is_white_space_char(c: char) -> (res: bool)
    ensures
        res == is_white_space(c),
{
    ('\u{9}' <= c && c <= '\u{d}') || c == ' ' || c == '\u{85}' || c == '\u{a0}' || c == '\u{1680}'
        || ('\u{2000}' <= c && c <= '\u{200a}') || c == '\u{2028}' || c == '\u{2029}' || c == '\u{202f}'
        || c == '\u{205f}' || c == '\u{3000}'
}

/// `s` without its trailing white space (`str::trim_end`).
pub open spec fn trim_end_spec(s: Seq<char>) -> Seq<char>
    decreases s.len(),
{
    if s.len() > 0 && is_white_space(s.last()) {
        trim_end_spec(s.drop_last())
    } else {
        s
    }
}

/// `s.trim_end()` as a new string.
pub fn trim_end_string(s: &String) -> (res: String)
    ensures
        res@ == trim_end_spec(s@),
{
    let chars = chars_of(s.as_str());
    let mut n = chars.len();
    assert(chars@.take(n as int) =~= s@);
    while n > 0 && is_white_space_char(chars[n - 1])
        invariant
            n <= chars@.len(),
            chars@ == s@,
            trim_end_spec(chars@.take(n as int)) == trim_end_spec(s@),
        decreases n,
    {
        proof {
            assert(chars@.take(n as int).drop_last() =~= chars@.take(n - 1));
        }
        n -= 1;
    }
    let mut out: Vec<char> = Vec::new();
    let mut i: usize = 0;
    while i < n
        invariant
            n <= chars@.len(),
            i <= n,
            out@ == chars@.take(i as int),
        decreases n - i,
    {
        out.push(chars[i]);
        assert(out@ =~= chars@.take(i + 1));
        i += 1;
    }
    proof {
        assert(chars@.take(n as int).len() == 0 || !is_white_space(chars@.take(n as int).last()));
        assert(out@ =~= chars@.take(n as int));
    }
    string_from_chars(&out)
}

/// Two strings are equal (`==` on `str`).
pub fn str_eq(a: &str, b: &str) -> (res: bool)
    ensures
        res == (a@ == b@),
{
    let x = chars_of(a);
    let y = chars_of(b);
    if x.len() != y.len() {
        return false;
    }
    let mut i: usize = 0;
    while i < x.len()
        invariant
            x@ == a@,
            y@ == b@,
            x.len() == y.len(),
            i <= x.len(),
            forall|j: int| 0 <= j < i ==> x@[j] == y@[j],
        decreases x.len() - i,
    {
        if x[i] != y[i] {
            return false;
        }
        i += 1;
    }
    assert(x@ =~= y@);
    true
}

/// The decimal digit for `d` (below ten).
pub open spec fn digit_char(d: nat) -> char {
    if d == 0 { '0' } else if d == 1 { '1' } else if d == 2 { '2' } else if d == 3 { '3' }
    else if d == 4 { '4' } else if d == 5 { '5' } else if d == 6 { '6' } else if d == 7 { '7' }
    else if d == 8 { '8' } else { '9' }
}

/// `n` written in decimal, without leading zeros (what `to_string` gives).
pub open spec fn decimal(n: nat) -> Seq<char>
    decreases n,
{
    if n < 10 {
        seq![digit_char(n)]
    } else {
        decimal(n / 10).push(digit_char(n % 10))
    }
}

fn digit_exec(d: u64) -> (res: char)
    requires
        d < 10,
    ensures
        res == digit_char(d as nat),
{
    if d == 0 { '0' } else if d == 1 { '1' } else if d == 2 { '2' } else if d == 3 { '3' }
    else if d == 4 { '4' } else if d == 5 { '5' } else if d == 6 { '6' } else if d == 7 { '7' }
    else if d == 8 { '8' } else { '9' }
}

/// A number written in decimal (`u64::to_string`).
pub fn decimal_string(n: u64) -> (res: String)
    ensures
        res@ == decimal(n as nat),
{
    // digits collected from the least significant one
    let mut rev: Vec<char> = Vec::new();
    let mut m = n;
    let d = m % 10;
    let c = digit_exec(d);
    rev.push(c);
    m = m / 10;
    proof {
        if n >= 10 {
            assert(decimal(n as nat) == decimal(m as nat).push(c));
            assert(decimal(m as nat).push(c) =~= decimal(m as nat) + rev@.reverse());
        } else {
            assert(rev@.reverse() =~= seq![c]);
        }
    }
    while m > 0
        invariant
            m > 0 ==> decimal(n as nat) == decimal(m as nat) + rev@.reverse(),
            m == 0 ==> decimal(n as nat) == rev@.reverse(),
        decreases m,
    {
        let d = m % 10;
        let c = digit_exec(d);
        let ghost old_rev = rev@;
        let ghost old_m = m;
        rev.push(c);
        m = m / 10;
        proof {
            assert(rev@.reverse() =~= seq![c] + old_rev.reverse());
            if old_m < 10 {
                assert(decimal(old_m as nat) == seq![c]);
            } else {
                assert(decimal(old_m as nat) == decimal(m as nat).push(c));
                assert(decimal(m as nat) + rev@.reverse() =~= decimal(m as nat).push(c) + old_rev.reverse());
            }
        }
    }
    let mut out: Vec<char> = Vec::new();
    let k = rev.len();
    let mut i: usize = 0;
    while i < k
        invariant
            k == rev@.len(),
            i <= k,
            out@ == rev@.reverse().take(i as int),
        decreases k - i,
    {
        out.push(rev[k - 1 - i]);
        assert(out@ =~= rev@.reverse().take(i + 1));
        i += 1;
    }
    assert(out@ =~= rev@.reverse());
    string_from_chars(&out)
}

} // verus!
